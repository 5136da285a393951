//! A pool of read buffers.
//!
//! Buffers that come back are kept, within limits, and handed out again without being cleared.

use crate::outside;
use vstd::prelude::*;

verus! {

/// The largest buffer that is kept: 8 MiB.
pub const MAX_POOLED_READ_BUFFER_CAPACITY: usize = 8_388_608;

/// The most bytes that are kept in all buffers together: 64 MiB.
pub const MAX_POOLED_READ_TOTAL_CAPACITY: usize = 67_108_864;

/// A kept buffer and the capacity it was measured with.
struct CachedBuffer {
    buffer: Vec<u8>,
    capacity: usize,
}

/// The content of a kept buffer.
pub struct CachedView {
    pub data: Seq<u8>,
    pub capacity: nat,
}

impl View for CachedBuffer {
    type V = CachedView;

    closed spec fn view(&self) -> CachedView {
        CachedView { data: self.buffer@, capacity: self.capacity as nat }
    }
}

/// A pool of read buffers.
pub struct ReadBufferPool {
    buffers: Vec<CachedBuffer>,
    total_capacity: usize,
    max_buffers: usize,
    max_total_capacity: usize,
    max_buffer_capacity: usize,
}

/// The content of a pool: the kept buffers and the limits.
pub struct PoolView {
    pub buffers: Seq<CachedView>,
    pub max_buffers: nat,
    pub max_total_capacity: nat,
    pub max_buffer_capacity: nat,
}

/// The capacities of the buffers together.
pub open spec fn total_of(buffers: Seq<CachedView>) -> nat
    decreases buffers.len(),
{
    if buffers.len() == 0 {
        0
    } else {
        total_of(buffers.drop_last()) + buffers.last().capacity
    }
}

impl PoolView {
    /// The pool keeps within its limits.
    pub open spec fn well_formed(self) -> bool {
        &&& self.buffers.len() <= self.max_buffers
        &&& total_of(self.buffers) <= self.max_total_capacity <= usize::MAX
        &&& forall|i: int|
            0 <= i < self.buffers.len() ==> (#[trigger] self.buffers[i]).data.len()
                <= self.buffers[i].capacity <= self.max_buffer_capacity
    }

    /// Whether buffer `index` is the one to hand out for `size` bytes: the first one among those
    /// that are large enough and no larger than any other such buffer.
    pub open spec fn is_best(self, size: nat, index: int) -> bool {
        &&& 0 <= index < self.buffers.len()
        &&& self.buffers[index].capacity >= size
        &&& forall|j: int|
            0 <= j < self.buffers.len() && (#[trigger] self.buffers[j]).capacity >= size
                ==> self.buffers[index].capacity <= self.buffers[j].capacity
        &&& forall|j: int|
            0 <= j < index && (#[trigger] self.buffers[j]).capacity >= size
                ==> self.buffers[index].capacity < self.buffers[j].capacity
    }

    /// Whether some buffer is large enough for `size` bytes.
    pub open spec fn has_room(self, size: nat) -> bool {
        exists|i: int| 0 <= i < self.buffers.len() && (#[trigger] self.buffers[i]).capacity >= size
    }

    /// The pool without buffer `index`, in whose place the last one stands.
    pub open spec fn without(self, index: int) -> PoolView {
        PoolView {
            buffers: self.buffers.update(index, self.buffers.last()).drop_last(),
            ..self
        }
    }

    /// Whether a buffer that comes back is kept.
    pub open spec fn keeps(self, capacity: nat) -> bool {
        &&& capacity <= self.max_buffer_capacity
        &&& self.buffers.len() < self.max_buffers
        &&& total_of(self.buffers) + capacity <= self.max_total_capacity
    }

    /// The pool after a buffer came back.
    pub open spec fn recycled(self, data: Seq<u8>, capacity: nat) -> PoolView {
        if self.keeps(capacity) {
            PoolView { buffers: self.buffers.push(CachedView { data, capacity }), ..self }
        } else {
            self
        }
    }
}

/// `data` with zeros behind it up to `size` bytes, where it is shorter.
pub open spec fn extended(data: Seq<u8>, size: nat) -> Seq<u8> {
    if data.len() < size {
        data + Seq::new((size - data.len()) as nat, |i: int| 0u8)
    } else {
        data
    }
}

impl View for ReadBufferPool {
    type V = PoolView;

    closed spec fn view(&self) -> PoolView {
        PoolView {
            buffers: Seq::new(self.buffers@.len(), |i: int| self.buffers@[i]@),
            max_buffers: self.max_buffers as nat,
            max_total_capacity: self.max_total_capacity as nat,
            max_buffer_capacity: self.max_buffer_capacity as nat,
        }
    }
}

/// A buffer on loan, of which the first `len` bytes are used.
pub struct ReadBufferLease {
    buffer: Vec<u8>,
    logical_len: usize,
}

impl ReadBufferLease {
    /// All bytes of the buffer.
    pub closed spec fn storage(self) -> Seq<u8> {
        self.buffer@
    }

    /// How many bytes are used.
    pub closed spec fn used(self) -> nat {
        self.logical_len as nat
    }

    /// The bytes in use lie in the buffer.
    pub open spec fn well_formed(self) -> bool {
        self.used() <= self.storage().len()
    }

    /// The bytes in use.
    pub fn as_slice(&self) -> (slice: &[u8])
        requires
            self.well_formed(),
        ensures
            slice@ == self.storage().take(self.used() as int),
    {
        &self.buffer.as_slice()[0..self.logical_len]
    }

    /// The bytes in use, to be written.
    pub fn as_mut_slice(&mut self) -> (slice: &mut [u8])
        requires
            old(self).well_formed(),
        ensures
            slice@ == old(self).storage().take(old(self).used() as int),
            final(self).storage() == final(slice)@ + old(self).storage().skip(
                old(self).used() as int,
            ),
            final(self).used() == old(self).used(),
    {
        let used: usize = self.logical_len;
        let (front, _) = self.buffer.as_mut_slice().split_at_mut(used);
        front
    }

    /// Ends the loan.
    pub fn into_buffer(self) -> (buffer: Vec<u8>)
        ensures
            buffer@ == self.storage(),
    {
        self.buffer
    }
}

impl ReadBufferPool {
    /// An empty pool.
    pub fn new(max_buffers: usize, max_total_capacity: usize, max_buffer_capacity: usize) -> (pool:
        Self)
        ensures
            pool@ == (PoolView {
                buffers: Seq::empty(),
                max_buffers: max_buffers as nat,
                max_total_capacity: max_total_capacity as nat,
                max_buffer_capacity: max_buffer_capacity as nat,
            }),
            pool.well_formed(),
    {
        let pool = ReadBufferPool {
            buffers: Vec::new(),
            total_capacity: 0,
            max_buffers,
            max_total_capacity,
            max_buffer_capacity,
        };
        assert(pool@.buffers =~= Seq::empty());
        pool
    }

    /// An empty pool for this many calls at a time: two buffers for each of them.
    pub fn for_concurrency(sdk_concurrency: usize) -> (pool: Self)
        ensures
            pool@ == (PoolView {
                buffers: Seq::empty(),
                max_buffers: if sdk_concurrency == 0 {
                    1
                } else if 2 * sdk_concurrency > usize::MAX {
                    usize::MAX as nat
                } else {
                    (2 * sdk_concurrency) as nat
                },
                max_total_capacity: MAX_POOLED_READ_TOTAL_CAPACITY as nat,
                max_buffer_capacity: MAX_POOLED_READ_BUFFER_CAPACITY as nat,
            }),
            pool.well_formed(),
    {
        let doubled: usize = sdk_concurrency.saturating_add(sdk_concurrency);
        let max_buffers: usize = if doubled < 1 {
            1
        } else {
            doubled
        };
        ReadBufferPool::new(
            max_buffers,
            MAX_POOLED_READ_TOTAL_CAPACITY,
            MAX_POOLED_READ_BUFFER_CAPACITY,
        )
    }

    /// The pool knows how much it keeps.
    pub closed spec fn counted(self) -> bool {
        self.total_capacity == total_of(self@.buffers)
    }

    /// The pool keeps within its limits and knows how much it keeps.
    pub open spec fn well_formed(self) -> bool {
        self@.well_formed() && self.counted()
    }

    /// Hands out a buffer for `size` bytes: the best kept one, or a new one where none is large
    /// enough. Bytes that the buffer held before stay.
    pub fn take(&mut self, size: usize) -> (lease: ReadBufferLease)
        requires
            old(self).well_formed(),
        ensures
            final(self).well_formed(),
            lease.well_formed(),
            lease.used() == size,
            !old(self)@.has_room(size as nat) ==> final(self)@ == old(self)@ && lease.storage()
                == Seq::new(size as nat, |i: int| 0u8),
            old(self)@.has_room(size as nat) ==> exists|index: int| #[trigger]
                old(self)@.is_best(size as nat, index) && final(self)@ == old(self)@.without(index)
                    && lease.storage() == extended(old(self)@.buffers[index].data, size as nat),
    {
        let ghost before = self@;
        let mut best: Option<usize> = None;
        let mut index: usize = 0;
        while index < self.buffers.len()
            invariant
                *self == *old(self),
                before == self@,
                index <= self.buffers@.len(),
                match best {
                    Some(found) => {
                        &&& found < index
                        &&& before.buffers[found as int].capacity >= size
                        &&& forall|j: int|
                            0 <= j < index && (#[trigger] before.buffers[j]).capacity >= size
                                ==> before.buffers[found as int].capacity
                                <= before.buffers[j].capacity
                        &&& forall|j: int|
                            0 <= j < found && (#[trigger] before.buffers[j]).capacity >= size
                                ==> before.buffers[found as int].capacity
                                < before.buffers[j].capacity
                    },
                    None => forall|j: int|
                        0 <= j < index ==> (#[trigger] before.buffers[j]).capacity < size,
                },
            decreases self.buffers@.len() - index,
        {
            let capacity: usize = self.buffers[index].capacity;
            assert(before.buffers[index as int].capacity == capacity);
            if capacity >= size {
                match best {
                    Some(found) => {
                        assert(before.buffers[found as int].capacity
                            == self.buffers@[found as int].capacity);
                        if capacity < self.buffers[found].capacity {
                            best = Some(index);
                        }
                    },
                    None => best = Some(index),
                }
            }
            index = index + 1;
        }
        let mut buffer: Vec<u8> = match best {
            Some(found) => {
                assert(before.is_best(size as nat, found as int));
                proof {
                    removal_subtracts(before.buffers, found as int);
                }
                let cached = self.buffers.swap_remove(found);
                assert(cached@ == before.buffers[found as int]);
                self.total_capacity = self.total_capacity.saturating_sub(cached.capacity);
                assert(self@.buffers =~= before.without(found as int).buffers);
                cached.buffer
            },
            None => Vec::with_capacity(size),
        };
        let ghost kept = buffer@;
        if buffer.len() < size {
            buffer.resize(size, 0);
        }
        assert(buffer@ =~= extended(kept, size as nat));
        assert(extended(Seq::empty(), size as nat) =~= Seq::new(size as nat, |i: int| 0u8));
        ReadBufferLease { buffer, logical_len: size }
    }

    /// Takes a buffer back. It is kept where the limits allow that, by the capacity that the
    /// allocator gave it.
    pub fn recycle(&mut self, buffer: Vec<u8>)
        requires
            old(self).well_formed(),
        ensures
            final(self).well_formed(),
            exists|capacity: nat|
                buffer@.len() <= capacity <= usize::MAX && final(self)@ == #[trigger] old(
                    self,
                )@.recycled(buffer@, capacity),
    {
        let capacity: usize = outside::vec_capacity(&buffer);
        self.recycle_measured(buffer, capacity);
    }

    /// Takes back a buffer of this capacity.
    pub fn recycle_measured(&mut self, buffer: Vec<u8>, capacity: usize)
        requires
            old(self).well_formed(),
            buffer@.len() <= capacity,
        ensures
            final(self).well_formed(),
            final(self)@ == old(self)@.recycled(buffer@, capacity as nat),
    {
        if capacity > self.max_buffer_capacity {
            return;
        }
        if self.buffers.len() >= self.max_buffers {
            return;
        }
        let ghost before = self@;
        match self.total_capacity.checked_add(capacity) {
            Some(total) => {
                if total > self.max_total_capacity {
                    return;
                }
                self.total_capacity = total;
                self.buffers.push(CachedBuffer { buffer, capacity });
                let ghost after = before.recycled(buffer@, capacity as nat);
                assert(self@.buffers =~= after.buffers);
                assert(after.buffers.drop_last() =~= before.buffers);
            },
            None => {},
        }
    }

    /// How many buffers are kept.
    pub fn cached_buffer_count(&self) -> (count: usize)
        ensures
            count == self@.buffers.len(),
    {
        self.buffers.len()
    }
}

proof fn removal_subtracts(buffers: Seq<CachedView>, index: int)
    requires
        0 <= index < buffers.len(),
    ensures
        total_of(buffers.update(index, buffers.last()).drop_last()) + buffers[index].capacity
            == total_of(buffers),
{
    let swapped = buffers.update(index, buffers.last());
    update_changes_total(buffers, index, buffers.last());
    assert(swapped.last() == buffers.last());
}

proof fn update_changes_total(buffers: Seq<CachedView>, index: int, new: CachedView)
    requires
        0 <= index < buffers.len(),
    ensures
        total_of(buffers.update(index, new)) + buffers[index].capacity == total_of(buffers)
            + new.capacity,
    decreases buffers.len(),
{
    let updated = buffers.update(index, new);
    if index == buffers.len() - 1 {
        assert(updated.drop_last() =~= buffers.drop_last());
    } else {
        update_changes_total(buffers.drop_last(), index, new);
        assert(updated.drop_last() =~= buffers.drop_last().update(index, new));
    }
}

// Laws.

/// A buffer that was kept is handed out again as it came back, without being cleared, to the next
/// taker of no more bytes than it holds, if the pool was empty before.
pub proof fn a_kept_buffer_is_handed_out_again(
    pool: PoolView,
    data: Seq<u8>,
    capacity: nat,
    size: nat,
)
    requires
        pool.buffers.len() == 0,
        pool.keeps(capacity),
        size <= data.len() <= capacity,
    ensures
        pool.recycled(data, capacity).has_room(size),
        forall|index: int| #[trigger]
            pool.recycled(data, capacity).is_best(size, index) ==> {
                &&& pool.recycled(data, capacity).without(index) == pool
                &&& extended(pool.recycled(data, capacity).buffers[index].data, size) == data
            },
{
    let after = pool.recycled(data, capacity);
    assert(after.buffers[0].capacity >= size);
    assert forall|index: int| #[trigger] after.is_best(size, index) implies {
        &&& after.without(index) == pool
        &&& extended(after.buffers[index].data, size) == data
    } by {
        assert(after.without(index).buffers =~= pool.buffers);
    }
}

/// A buffer that is too large is not kept.
pub proof fn oversized_buffers_are_dropped(pool: PoolView, data: Seq<u8>, capacity: nat)
    requires
        capacity > pool.max_buffer_capacity,
    ensures
        pool.recycled(data, capacity) == pool,
{
}

/// Whatever comes back, the pool stays within its limits.
pub proof fn recycling_keeps_the_limits(pool: PoolView, data: Seq<u8>, capacity: nat)
    requires
        pool.well_formed(),
        data.len() <= capacity,
    ensures
        pool.recycled(data, capacity).well_formed(),
{
    let after = pool.recycled(data, capacity);
    if pool.keeps(capacity) {
        assert(after.buffers.drop_last() =~= pool.buffers);
    }
}

/// Handing a buffer out keeps the limits, and there is room to take it back.
pub proof fn a_buffer_handed_out_can_come_back(pool: PoolView, size: nat, index: int)
    requires
        pool.well_formed(),
        pool.is_best(size, index),
    ensures
        pool.without(index).well_formed(),
        pool.without(index).keeps(pool.buffers[index].capacity),
{
    removal_subtracts(pool.buffers, index);
}

/// There is exactly one best buffer where one is large enough.
pub proof fn the_best_buffer_is_unique(pool: PoolView, size: nat, left: int, right: int)
    requires
        pool.is_best(size, left),
        pool.is_best(size, right),
    ensures
        left == right,
{
}

/// A buffer is kept exactly where it is no larger than allowed and neither the number nor the
/// bytes of the kept buffers go over their limits. It is kept as it came back, behind the others.
pub proof fn every_buffer_within_the_limits_is_kept(pool: PoolView, data: Seq<u8>, capacity: nat)
    ensures
        ({
            let after = pool.recycled(data, capacity);
            if capacity <= pool.max_buffer_capacity && pool.buffers.len() < pool.max_buffers
                && total_of(pool.buffers) + capacity <= pool.max_total_capacity {
                &&& after.buffers == pool.buffers.push(CachedView { data, capacity })
                &&& total_of(after.buffers) == total_of(pool.buffers) + capacity
            } else {
                after == pool
            }
        }),
        pool.recycled(data, capacity).max_buffers == pool.max_buffers,
        pool.recycled(data, capacity).max_total_capacity == pool.max_total_capacity,
        pool.recycled(data, capacity).max_buffer_capacity == pool.max_buffer_capacity,
        total_of(Seq::empty()) == 0,
{
    assert(pool.buffers.push(CachedView { data, capacity }).drop_last() =~= pool.buffers);
}

/// Where a kept buffer is large enough there is a best one. It is large enough, no other that is
/// large enough is smaller, and none as small stands before it.
pub proof fn the_best_buffer_is_the_smallest_that_suffices(pool: PoolView, size: nat, index: int)
    requires
        0 <= index < pool.buffers.len(),
    ensures
        pool.has_room(size) <==> exists|i: int|
            0 <= i < pool.buffers.len() && (#[trigger] pool.buffers[i]).capacity >= size,
        pool.is_best(size, index) <==> pool.buffers[index].capacity >= size && forall|j: int|
            0 <= j < pool.buffers.len() && (#[trigger] pool.buffers[j]).capacity >= size ==> (
            pool.buffers[index].capacity < pool.buffers[j].capacity || (
            pool.buffers[index].capacity == pool.buffers[j].capacity && index <= j)),
{
}

/// Handing a buffer out takes that one away and leaves all others.
pub proof fn only_the_buffer_handed_out_is_taken_away(pool: PoolView, index: int, other: int)
    requires
        0 <= index < pool.buffers.len(),
        0 <= other < pool.buffers.len(),
        other != index,
    ensures
        pool.without(index).buffers.len() == pool.buffers.len() - 1,
        pool.without(index).buffers.contains(pool.buffers[other]),
        pool.without(index).max_buffers == pool.max_buffers,
        pool.without(index).max_total_capacity == pool.max_total_capacity,
        pool.without(index).max_buffer_capacity == pool.max_buffer_capacity,
{
    let left = pool.without(index).buffers;
    if other == pool.buffers.len() - 1 {
        assert(left[index] == pool.buffers[other]);
    } else {
        assert(left[other] == pool.buffers[other]);
    }
}

/// A buffer that is handed out has its bytes, and zeros behind them where it was too short.
pub proof fn a_buffer_keeps_its_bytes(data: Seq<u8>, size: nat, place: int)
    requires
        0 <= place < extended(data, size).len(),
    ensures
        extended(data, size).len() == if data.len() < size {
            size
        } else {
            data.len()
        },
        extended(data, size)[place] == if place < data.len() {
            data[place]
        } else {
            0u8
        },
{
}

/// A pool keeps buffers of up to 8 MiB, and up to 64 MiB in all.
pub proof fn the_limits_of_a_pool()
    ensures
        MAX_POOLED_READ_BUFFER_CAPACITY == 8388608,
        MAX_POOLED_READ_TOTAL_CAPACITY == 67108864,
{
}

} // verus!
