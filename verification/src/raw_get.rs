//! The arguments of one native read call: one buffer for all keys, cut into regions.

use crate::error;
use crate::error::{ErrorKind, Failure, MemStoreStoreError};
use crate::frame;
use crate::frame::HEADER_LEN;
use crate::outside;
use crate::read_session;
use crate::read_session::{RawRead, RawReadView};
use crate::status;
use crate::status::CResult;
use bytes::Bytes;
use vstd::prelude::*;
use vstd::utf8;

verus! {

/// Where the region of item `index` starts: behind those of the items before it.
pub open spec fn offset_at(sizes: Seq<usize>, index: int) -> int
    decreases index,
{
    if index <= 0 {
        0
    } else {
        offset_at(sizes, index - 1) + sizes[index - 1]
    }
}

/// The answer to sizes whose sum is not a `usize`.
pub open spec fn size_overflow() -> Failure {
    error::failure(ErrorKind::InvalidArgument, "MemStore read batch size overflowed"@)
}

/// The answer to more items than a C unsigned integer counts.
pub open spec fn batch_too_large() -> Failure {
    error::failure(ErrorKind::InvalidArgument, "MemStore batch size exceeds c_uint::MAX"@)
}

/// How large a buffer a read call needs, or nothing where there is nothing to call for.
pub open spec fn plan_of(key_count: nat, sizes: Seq<usize>) -> Result<Option<int>, Failure> {
    if key_count != sizes.len() {
        Err(
            error::failure(
                ErrorKind::Internal,
                "MemStore raw get key and buffer counts differ"@,
            ),
        )
    } else if key_count > u32::MAX {
        Err(batch_too_large())
    } else if key_count == 0 {
        Ok(None)
    } else if offset_at(sizes, sizes.len() as int) > usize::MAX {
        Err(size_overflow())
    } else {
        Ok(Some(offset_at(sizes, sizes.len() as int)))
    }
}

/// How large a buffer a read call needs, or nothing where there is nothing to call for.
pub fn plan_read(key_count: usize, buffer_sizes: &[usize]) -> (plan: Result<
    Option<usize>,
    MemStoreStoreError,
>)
    ensures
        match plan_of(key_count as nat, buffer_sizes@) {
            Ok(Some(total)) => plan matches Ok(Some(got)) && got == total,
            Ok(None) => plan matches Ok(None),
            Err(failure) => plan matches Err(error) && error@ == failure,
        },
{
    if key_count != buffer_sizes.len() {
        return Err(
            MemStoreStoreError::Internal(
                "MemStore raw get key and buffer counts differ".to_owned(),
            ),
        );
    }
    if key_count > u32::MAX as usize {
        return Err(
            MemStoreStoreError::InvalidArgument(
                "MemStore batch size exceeds c_uint::MAX".to_owned(),
            ),
        );
    }
    if key_count == 0 {
        return Ok(None);
    }
    let mut total: usize = 0;
    let mut index: usize = 0;
    while index < buffer_sizes.len()
        invariant
            key_count == buffer_sizes@.len(),
            0 < key_count <= u32::MAX,
            index <= buffer_sizes@.len(),
            total == offset_at(buffer_sizes@, index as int),
        decreases buffer_sizes@.len() - index,
    {
        match total.checked_add(buffer_sizes[index]) {
            Some(sum) => total = sum,
            None => {
                proof {
                    offsets_grow(buffer_sizes@, index + 1, buffer_sizes@.len() as int);
                }
                return Err(
                    MemStoreStoreError::InvalidArgument(
                        "MemStore read batch size overflowed".to_owned(),
                    ),
                );
            },
        }
        index = index + 1;
    }
    Ok(Some(total))
}

/// What the native call is told of one key, beside the addresses.
#[derive(Debug, Clone, Copy, PartialEq, Eq, Structural)]
pub struct GetRequest {
    pub key_len: u16,
    pub offset: u32,
    pub length: u32,
}

/// Metadata of a native read call, kept between calls so that its allocations are reused.
#[derive(Debug, Default)]
pub struct RawGetScratch {
    /// Where each item's region starts in the buffer.
    pub offsets: Vec<usize>,
    /// The stored length of each item, which the native call sets.
    pub real_lengths: Vec<u32>,
    /// The status of each item, which the native call sets.
    pub results: Vec<CResult>,
    /// What the native call is told of each item.
    pub items: Vec<GetRequest>,
}

/// Why the region of item `index` cannot be laid out in `room` bytes, if it cannot.
pub open spec fn fault_at(sizes: Seq<usize>, room: nat, index: int) -> Option<Failure> {
    let end = offset_at(sizes, index) + sizes[index];
    if sizes[index] > u32::MAX {
        Some(
            error::failure(
                ErrorKind::InvalidArgument,
                "MemStore read buffer size exceeds c_uint::MAX"@,
            ),
        )
    } else if end > usize::MAX {
        Some(size_overflow())
    } else if end > room {
        Some(
            error::failure(
                ErrorKind::InvalidArgument,
                "MemStore read buffers exceed the contiguous allocation"@,
            ),
        )
    } else {
        None
    }
}

/// Whether the first `count` regions can be laid out in `room` bytes.
pub open spec fn laid_out(sizes: Seq<usize>, room: nat, count: int) -> bool {
    forall|i: int| 0 <= i < count ==> (#[trigger] fault_at(sizes, room, i)) is None
}

/// The offsets of the first `count` regions.
pub open spec fn offsets_of(sizes: Seq<usize>, count: nat) -> Seq<usize> {
    Seq::new(count, |i: int| offset_at(sizes, i) as usize)
}

/// The length of the part of a region that is cleared: a header, or less where the region is
/// smaller.
pub open spec fn header_room(size: usize) -> int {
    if HEADER_LEN < size {
        HEADER_LEN as int
    } else {
        size as int
    }
}

/// `buffer` with the headers of the first `count` regions set to zero.
pub open spec fn cleared(buffer: Seq<u8>, sizes: Seq<usize>, count: int) -> Seq<u8> {
    Seq::new(
        buffer.len(),
        |p: int|
            if exists|i: int|
                0 <= i < count && #[trigger] offset_at(sizes, i) <= p < offset_at(sizes, i)
                    + header_room(sizes[i]) {
                0u8
            } else {
                buffer[p]
            },
    )
}

impl RawGetScratch {
    /// A scratch without entries.
    pub fn new() -> (scratch: Self)
        ensures
            scratch.offsets@.len() == 0,
            scratch.real_lengths@.len() == 0,
            scratch.results@.len() == 0,
            scratch.items@.len() == 0,
    {
        RawGetScratch {
            offsets: Vec::new(),
            real_lengths: Vec::new(),
            results: Vec::new(),
            items: Vec::new(),
        }
    }

    /// Drops all entries.
    pub fn clear(&mut self)
        ensures
            final(self).offsets@ == Seq::<usize>::empty(),
            final(self).real_lengths@ == Seq::<u32>::empty(),
            final(self).results@ == Seq::<CResult>::empty(),
            final(self).items@ == Seq::<GetRequest>::empty(),
    {
        self.items.clear();
        self.results.clear();
        self.real_lengths.clear();
        self.offsets.clear();
    }

    /// Lays out one region for each size in `buffer`, clears the header of each region, and sets
    /// up the entries of each key. Stops at the first region that cannot be laid out.
    pub fn prepare(&mut self, keys: &[String], buffer_sizes: &[usize], buffer: &mut [u8]) -> (done:
        Result<(), MemStoreStoreError>)
        requires
            keys@.len() <= buffer_sizes@.len(),
        ensures
            final(buffer)@.len() == old(buffer)@.len(),
            final(self).real_lengths@ == Seq::new(keys@.len(), |i: int| 0u32),
            final(self).results@ == Seq::new(keys@.len(), |i: int| status::RESULT_SENTINEL),
            match done {
                Ok(_) => {
                    &&& laid_out(buffer_sizes@, old(buffer)@.len(), buffer_sizes@.len() as int)
                    &&& final(self).offsets@ == offsets_of(buffer_sizes@, buffer_sizes@.len())
                    &&& final(self).items@ == Seq::new(
                        keys@.len(),
                        |i: int|
                            GetRequest {
                                key_len: utf8::encode_utf8(keys@[i]@).len() as u16,
                                offset: 0,
                                length: buffer_sizes@[i] as u32,
                            },
                    )
                    &&& frame::names_fit(frame::texts(keys@)) ==> forall|i: int|
                        0 <= i < keys@.len() ==> (#[trigger] final(self).items@[i]).key_len
                            == utf8::encode_utf8(keys@[i]@).len()
                    &&& final(buffer)@ == cleared(
                        old(buffer)@,
                        buffer_sizes@,
                        buffer_sizes@.len() as int,
                    )
                },
                Err(error) => exists|bad: int|
                    0 <= bad < buffer_sizes@.len() && (#[trigger] fault_at(
                        buffer_sizes@,
                        old(buffer)@.len(),
                        bad,
                    )) == Some(error@) && laid_out(buffer_sizes@, old(buffer)@.len(), bad)
                        && final(self).offsets@ == offsets_of(buffer_sizes@, bad as nat)
                        && final(self).items@.len() == 0 && final(buffer)@ == cleared(
                        old(buffer)@,
                        buffer_sizes@,
                        bad,
                    ),
            },
    {
        self.clear();
        self.real_lengths.resize(keys.len(), 0);
        self.results.resize(keys.len(), status::RESULT_SENTINEL);
        assert(self.real_lengths@ =~= Seq::new(keys@.len(), |i: int| 0u32));
        assert(self.results@ =~= Seq::new(keys@.len(), |i: int| status::RESULT_SENTINEL));
        let ghost start = buffer@;
        let ghost sizes = buffer_sizes@;
        let mut offset: usize = 0;
        let mut index: usize = 0;
        assert(buffer@ =~= cleared(start, sizes, 0));
        assert(self.offsets@ =~= offsets_of(sizes, 0));
        while index < buffer_sizes.len()
            invariant
                start == old(buffer)@,
                sizes == buffer_sizes@,
                index <= sizes.len(),
                buffer@.len() == start.len(),
                offset == offset_at(sizes, index as int),
                offset <= start.len(),
                laid_out(sizes, start.len(), index as int),
                self.offsets@ == offsets_of(sizes, index as nat),
                self.items@.len() == 0,
                self.real_lengths@ == Seq::new(keys@.len(), |i: int| 0u32),
                self.results@ == Seq::new(keys@.len(), |i: int| status::RESULT_SENTINEL),
                buffer@ == cleared(start, sizes, index as int),
            decreases sizes.len() - index,
        {
            let size: usize = buffer_sizes[index];
            if size > u32::MAX as usize {
                assert(fault_at(sizes, start.len(), index as int) is Some);
                return Err(
                    MemStoreStoreError::InvalidArgument(
                        "MemStore read buffer size exceeds c_uint::MAX".to_owned(),
                    ),
                );
            }
            let next_offset: usize = match offset.checked_add(size) {
                Some(next) => next,
                None => {
                    assert(fault_at(sizes, start.len(), index as int) is Some);
                    return Err(
                        MemStoreStoreError::InvalidArgument(
                            "MemStore read batch size overflowed".to_owned(),
                        ),
                    );
                },
            };
            if next_offset > buffer.len() {
                assert(fault_at(sizes, start.len(), index as int) is Some);
                return Err(
                    MemStoreStoreError::InvalidArgument(
                        "MemStore read buffers exceed the contiguous allocation".to_owned(),
                    ),
                );
            }
            self.offsets.push(offset);
            assert(self.offsets@ =~= offsets_of(sizes, (index + 1) as nat));
            let header: usize = if HEADER_LEN < size {
                HEADER_LEN
            } else {
                size
            };
            clear_bytes(buffer, offset, offset + header);
            assert(buffer@ =~= cleared(start, sizes, index + 1)) by {
                let before = cleared(start, sizes, index as int);
                let after = cleared(start, sizes, index + 1);
                assert forall|p: int| 0 <= p < start.len() implies buffer@[p] == after[p] by {
                    if offset <= p < offset + header {
                        assert(offset_at(sizes, index as int) <= p < offset_at(
                            sizes,
                            index as int,
                        ) + header_room(sizes[index as int]));
                    } else if after[p] != before[p] {
                        let i = choose|i: int|
                            0 <= i < index + 1 && #[trigger] offset_at(sizes, i) <= p < offset_at(
                                sizes,
                                i,
                            ) + header_room(sizes[i]);
                        assert(i == index);
                    }
                }
            }
            assert(fault_at(sizes, start.len(), index as int) is None);
            offset = next_offset;
            index = index + 1;
        }
        let mut item: usize = 0;
        while item < keys.len()
            invariant
                keys@.len() <= buffer_sizes@.len(),
                sizes == buffer_sizes@,
                item <= keys@.len(),
                self.items@.len() == item,
                self.offsets@ == offsets_of(sizes, sizes.len()),
                self.real_lengths@ == Seq::new(keys@.len(), |i: int| 0u32),
                self.results@ == Seq::new(keys@.len(), |i: int| status::RESULT_SENTINEL),
                forall|i: int|
                    0 <= i < item ==> (#[trigger] self.items@[i]) == (GetRequest {
                        key_len: utf8::encode_utf8(keys@[i]@).len() as u16,
                        offset: 0,
                        length: sizes[i] as u32,
                    }),
            decreases keys@.len() - item,
        {
            self.items.push(
                GetRequest {
                    key_len: keys[item].as_str().as_bytes().len() as u16,
                    offset: 0,
                    length: buffer_sizes[item] as u32,
                },
            );
            item = item + 1;
        }
        assert(self.items@ =~= Seq::new(
            keys@.len(),
            |i: int|
                GetRequest {
                    key_len: utf8::encode_utf8(keys@[i]@).len() as u16,
                    offset: 0,
                    length: buffer_sizes@[i] as u32,
                },
        ));
        proof {
            if frame::names_fit(frame::texts(keys@)) {
                assert forall|i: int| 0 <= i < keys@.len() implies (
                #[trigger] self.items@[i]).key_len == utf8::encode_utf8(keys@[i]@).len() by {
                    assert(frame::name_fits(frame::texts(keys@)[i]));
                }
            }
        }
        Ok(())
    }

    /// What the native call returned for each item. `preserved` says of each item whether its
    /// address still points into `buffer`.
    pub fn collect(&self, buffer_sizes: &[usize], buffer: &Bytes, preserved: &[bool]) -> (reads:
        Vec<RawRead>)
        requires
            self.offsets@.len() == buffer_sizes@.len(),
            self.real_lengths@.len() == buffer_sizes@.len(),
            self.results@.len() == buffer_sizes@.len(),
            preserved@.len() == buffer_sizes@.len(),
            forall|i: int|
                0 <= i < buffer_sizes@.len() ==> (#[trigger] self.offsets@[i]) + buffer_sizes@[i]
                    <= outside::content(*buffer).len(),
        ensures
            read_session::read_views(reads@) == Seq::new(
                buffer_sizes@.len(),
                |i: int|
                    RawReadView {
                        data: outside::content(*buffer).subrange(
                            self.offsets@[i] as int,
                            self.offsets@[i] + buffer_sizes@[i],
                        ),
                        preserved: preserved@[i],
                        real_length: self.real_lengths@[i] as usize,
                        result: self.results@[i],
                    },
            ),
    {
        let covered: usize = outside::bytes_as_slice(buffer).len();
        let mut reads: Vec<RawRead> = Vec::new();
        let mut index: usize = 0;
        while index < buffer_sizes.len()
            invariant
                self.offsets@.len() == buffer_sizes@.len(),
                self.real_lengths@.len() == buffer_sizes@.len(),
                self.results@.len() == buffer_sizes@.len(),
                preserved@.len() == buffer_sizes@.len(),
                forall|i: int|
                    0 <= i < buffer_sizes@.len() ==> (#[trigger] self.offsets@[i])
                        + buffer_sizes@[i] <= outside::content(*buffer).len(),
                outside::content(*buffer).len() == covered,
                index <= buffer_sizes@.len(),
                reads@.len() == index,
                forall|i: int|
                    0 <= i < index ==> (#[trigger] reads@[i])@ == (RawReadView {
                        data: outside::content(*buffer).subrange(
                            self.offsets@[i] as int,
                            self.offsets@[i] + buffer_sizes@[i],
                        ),
                        preserved: preserved@[i],
                        real_length: self.real_lengths@[i] as usize,
                        result: self.results@[i],
                    }),
            decreases buffer_sizes@.len() - index,
        {
            let start: usize = self.offsets[index];
            let end: usize = start + buffer_sizes[index];
            reads.push(
                RawRead {
                    buffer: outside::bytes_slice(buffer, start, end),
                    caller_buffer_preserved: preserved[index],
                    real_length: self.real_lengths[index] as usize,
                    result: self.results[index],
                },
            );
            index = index + 1;
        }
        assert(read_session::read_views(reads@) =~= Seq::new(
            buffer_sizes@.len(),
            |i: int|
                RawReadView {
                    data: outside::content(*buffer).subrange(
                        self.offsets@[i] as int,
                        self.offsets@[i] + buffer_sizes@[i],
                    ),
                    preserved: preserved@[i],
                    real_length: self.real_lengths@[i] as usize,
                    result: self.results@[i],
                },
        ));
        reads
    }
}

/// Sets the bytes from `from` up to `to` to zero.
fn clear_bytes(buffer: &mut [u8], from: usize, to: usize)
    requires
        from <= to <= old(buffer)@.len(),
    ensures
        final(buffer)@ == Seq::new(
            old(buffer)@.len(),
            |p: int|
                if from <= p < to {
                    0u8
                } else {
                    old(buffer)@[p]
                },
        ),
{
    let ghost start = buffer@;
    let mut at: usize = from;
    while at < to
        invariant
            from <= at <= to <= start.len(),
            buffer@.len() == start.len(),
            forall|p: int|
                0 <= p < start.len() ==> (#[trigger] buffer@[p]) == if from <= p < at {
                    0u8
                } else {
                    start[p]
                },
        decreases to - at,
    {
        buffer[at] = 0;
        at = at + 1;
    }
    assert(buffer@ =~= Seq::new(
        start.len(),
        |p: int|
            if from <= p < to {
                0u8
            } else {
                start[p]
            },
    ));
}

// Laws.

/// Regions follow each other: none starts before an earlier one has ended.
pub proof fn regions_do_not_overlap(sizes: Seq<usize>, earlier: int, later: int)
    requires
        0 <= earlier < later <= sizes.len(),
    ensures
        0 <= offset_at(sizes, earlier),
        offset_at(sizes, earlier) + sizes[earlier] <= offset_at(sizes, later),
{
    offsets_grow(sizes, 0, earlier);
    offsets_grow(sizes, earlier + 1, later);
}

/// Where the plan finds a size, a buffer of that size takes all regions that a C unsigned integer
/// can measure.
pub proof fn planned_buffers_suffice(sizes: Seq<usize>, total: int)
    requires
        plan_of(sizes.len(), sizes) == Ok::<Option<int>, Failure>(Some(total)),
        forall|i: int| 0 <= i < sizes.len() ==> (#[trigger] sizes[i]) <= u32::MAX,
    ensures
        laid_out(sizes, total as nat, sizes.len() as int),
{
    assert forall|i: int| 0 <= i < sizes.len() implies (
    #[trigger] fault_at(sizes, total as nat, i)) is None by {
        offsets_grow(sizes, i + 1, sizes.len() as int);
    }
}

/// In each region the header is cleared and the rest is left as it was.
pub proof fn only_headers_are_cleared(buffer: Seq<u8>, sizes: Seq<usize>, index: int, place: int)
    requires
        laid_out(sizes, buffer.len(), sizes.len() as int),
        0 <= index < sizes.len(),
        0 <= place < sizes[index],
    ensures
        cleared(buffer, sizes, sizes.len() as int)[offset_at(sizes, index) + place] == (if place
            < HEADER_LEN {
            0u8
        } else {
            buffer[offset_at(sizes, index) + place]
        }),
{
    let p = offset_at(sizes, index) + place;
    offsets_grow(sizes, 0, index);
    assert(fault_at(sizes, buffer.len(), index) is None);
    if place >= HEADER_LEN {
        assert forall|i: int| 0 <= i < sizes.len() implies !(#[trigger] offset_at(sizes, i) <= p
            < offset_at(sizes, i) + header_room(sizes[i])) by {
            if i < index {
                regions_do_not_overlap(sizes, i, index);
            }
            if index < i {
                regions_do_not_overlap(sizes, index, i);
            }
        }
    } else {
        assert(offset_at(sizes, index) <= p < offset_at(sizes, index) + header_room(
            sizes[index],
        ));
    }
}

/// A region that the native call did not write to never passes for a value.
pub proof fn untouched_regions_hold_no_value(data: Seq<u8>, limit: nat)
    requires
        forall|p: int| 0 <= p < data.len() && p < HEADER_LEN ==> (#[trigger] data[p]) == 0,
    ensures
        frame::announced_length(data, limit) is Err,
{
    if data.len() >= HEADER_LEN {
        assert(data.subrange(0, 4)[0] == data[0]);
        assert(frame::magic()[0] != 0);
    }
}

proof fn offsets_grow(sizes: Seq<usize>, from: int, to: int)
    requires
        0 <= from <= to <= sizes.len(),
    ensures
        0 <= offset_at(sizes, from) <= offset_at(sizes, to),
    decreases to,
{
    if from < to {
        offsets_grow(sizes, from, to - 1);
    } else if to > 0 {
        offsets_grow(sizes, to - 1, to - 1);
    }
}

/// The first region starts at the front, and each other one where the one before it ends.
pub proof fn regions_follow_each_other(sizes: Seq<usize>, index: int)
    requires
        0 <= index < sizes.len(),
    ensures
        offset_at(sizes, 0) == 0,
        offset_at(sizes, index + 1) == offset_at(sizes, index) + sizes[index],
{
}

/// A read call is planned exactly for 1 to 4294967295 keys with one size each whose sum is a
/// `usize`, and its buffer has exactly that sum.
pub proof fn every_countable_read_is_planned(key_count: nat, sizes: Seq<usize>)
    ensures
        ({
            let plan = plan_of(key_count, sizes);
            let total = offset_at(sizes, sizes.len() as int);
            &&& plan == Ok::<Option<int>, Failure>(None) <==> key_count == 0 && sizes.len() == 0
            &&& key_count > 0 ==> (plan is Ok <==> key_count == sizes.len() && key_count
                <= 4294967295 && total <= usize::MAX)
            &&& plan matches Ok(Some(planned)) ==> planned == total
            &&& plan matches Err(failure) ==> failure.kind == if key_count != sizes.len() {
                ErrorKind::Internal
            } else {
                ErrorKind::InvalidArgument
            }
        }),
{
}

/// A region is laid out exactly where its size is a C unsigned integer and it ends within the
/// buffer.
pub proof fn every_region_within_the_buffer_is_laid_out(
    sizes: Seq<usize>,
    room: nat,
    index: int,
)
    requires
        0 <= index < sizes.len(),
        room <= usize::MAX,
    ensures
        fault_at(sizes, room, index) is None <==> sizes[index] <= 4294967295 && offset_at(
            sizes,
            index + 1,
        ) <= room,
        fault_at(sizes, room, index) matches Some(failure) ==> failure.kind
            == ErrorKind::InvalidArgument,
{
}

/// Of each region exactly the first nine bytes are cleared, or all where it is smaller.
pub proof fn nine_bytes_of_each_region_are_cleared(
    buffer: Seq<u8>,
    sizes: Seq<usize>,
    index: int,
    place: int,
)
    requires
        laid_out(sizes, buffer.len(), sizes.len() as int),
        0 <= index < sizes.len(),
        0 <= place < sizes[index],
    ensures
        cleared(buffer, sizes, sizes.len() as int).len() == buffer.len(),
        cleared(buffer, sizes, sizes.len() as int)[offset_at(sizes, index) + place] == (if place
            < 9 {
            0u8
        } else {
            buffer[offset_at(sizes, index) + place]
        }),
{
    only_headers_are_cleared(buffer, sizes, index, place);
}

/// Every region starts at its offset.
pub proof fn offsets_are_listed(sizes: Seq<usize>, count: nat, index: int)
    requires
        0 <= index < count <= sizes.len(),
        offset_at(sizes, sizes.len() as int) <= usize::MAX,
    ensures
        offsets_of(sizes, count).len() == count,
        offsets_of(sizes, count)[index] == offset_at(sizes, index),
{
    offsets_grow(sizes, index, sizes.len() as int);
}

} // verus!
