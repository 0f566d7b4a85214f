//! Which block of DRAM is given out.

use vstd::prelude::*;

use crate::dram_allocator;
use crate::dram_allocator::Allocation;

verus! {

/// Whether `size` bytes from `offset` on are free.
pub open spec fn is_free_run(regions: Map<usize, usize>, offset: int, size: int) -> bool {
    forall|byte: int| offset <= byte < offset + size ==> #[trigger] dram_allocator::is_free(regions, byte)
}

/// Bytes that are free one behind the other are in one region.
proof fn lemma_run_in_one_region(regions: Map<usize, usize>, offset: int, size: int) -> (key: usize)
    requires
        dram_allocator::coalesced(regions),
        0 < size,
        is_free_run(regions, offset, size),
    ensures
        regions.contains_key(key),
        key <= offset,
        offset + size <= key + regions[key],
    decreases size,
{
    let last = offset + size - 1;
    assert(dram_allocator::is_free(regions, last));
    let end = choose|key: usize| #[trigger]
        regions.contains_key(key) && key <= last < key + regions[key];
    if size == 1 {
        end
    } else {
        assert(is_free_run(regions, offset, size - 1));
        let key = lemma_run_in_one_region(regions, offset, size - 1);
        if key < end {
            assert(key + regions[key] < end);
        } else if end < key {
            assert(end + regions[end] < key);
        }
        key
    }
}

proof fn lemma_run_fits(
    regions: Map<usize, usize>,
    offset: int,
    size: usize,
    align: usize,
) -> (key: usize)
    requires
        dram_allocator::coalesced(regions),
        align > 0,
        size > 0,
        offset % align as int == 0,
        is_free_run(regions, offset, size as int),
    ensures
        regions.contains_key(key),
        key <= offset,
        offset + size <= key + regions[key],
        dram_allocator::fits(key, regions[key], size, align),
        dram_allocator::align_up(key as int, align as int) <= offset,
{
    let key = lemma_run_in_one_region(regions, offset, size as int);
    dram_allocator::align_up_is_least_multiple(key as int, align as int);
    key
}

/// A bank refuses a block only if it has no aligned run of as many free bytes.
pub proof fn a_bank_with_room_is_not_full(
    regions: Map<usize, usize>,
    offset: int,
    size: usize,
    align: usize,
)
    requires
        dram_allocator::coalesced(regions),
        align > 0,
        size > 0,
        offset % align as int == 0,
        is_free_run(regions, offset, size as int),
    ensures
        !dram_allocator::full(regions, size, align),
{
    let key = lemma_run_fits(regions, offset, size, align);
    assert(regions.contains_key(key));
}

/// The block that is given out is aligned and was free, no bank before its own has such a block, and
/// its own bank has none that lies lower. Afterwards exactly its bytes are no longer free.
pub proof fn the_first_and_lowest_block_is_given_out(
    before: Seq<Map<usize, usize>>,
    after: Seq<Map<usize, usize>>,
    block: Allocation,
    size: usize,
    align: usize,
)
    requires
        dram_allocator::allocated(before, after, block, size, align),
        forall|bank: int|
            0 <= bank < before.len() ==> dram_allocator::coalesced(#[trigger] before[bank]),
        forall|bank: int|
            0 <= bank < before.len() ==> dram_allocator::bounded(#[trigger] before[bank]),
        align > 0,
        size > 0,
    ensures
        ({
            let bank = block.dram_bank as int;
            &&& 0 <= bank < before.len()
            &&& after.len() == before.len()
            &&& block.offset as int % align as int == 0
            &&& is_free_run(before[bank], block.offset as int, size as int)
            &&& forall|offset: int|
                #![trigger is_free_run(before[bank], offset, size as int)]
                offset % align as int == 0 && is_free_run(before[bank], offset, size as int)
                    ==> block.offset <= offset
            &&& forall|other: int, offset: int|
                #![trigger is_free_run(before[other], offset, size as int)]
                0 <= other < bank && offset % align as int == 0 ==> !is_free_run(
                    before[other],
                    offset,
                    size as int,
                )
            &&& forall|other: int|
                0 <= other < before.len() && other != bank ==> #[trigger] after[other]
                    == before[other]
            &&& forall|byte: int|
                #![trigger dram_allocator::is_free(after[bank], byte)]
                dram_allocator::is_free(after[bank], byte) <==> dram_allocator::is_free(
                    before[bank],
                    byte,
                ) && !(block.offset <= byte < block.offset + size)
        }),
{
    let bank = block.dram_bank as int;
    let key = choose|key: usize| #[trigger]
        dram_allocator::taken(before, after, block, key, size, align);
    let regions = before[bank];
    dram_allocator::align_up_is_least_multiple(key as int, align as int);
    assert(regions.contains_key(key));
    assert(dram_allocator::disjoint(regions));
    assert(dram_allocator::within(regions, usize::MAX));
    assert(block.offset <= usize::MAX);
    dram_allocator::allocation_takes_an_aligned_free_block(
        regions,
        key,
        block.offset as usize,
        size,
        align,
        usize::MAX,
    );
    assert forall|offset: int|
        #![trigger is_free_run(before[bank], offset, size as int)]
        offset % align as int == 0 && is_free_run(before[bank], offset, size as int)
            implies block.offset <= offset by {
        let region = lemma_run_fits(regions, offset, size, align);
        if region < key {
            assert(regions.contains_key(region));
        } else if region > key {
            assert(regions.contains_key(region));
            assert(key + regions[key] < region);
        }
    }
    assert forall|other: int, offset: int|
        #![trigger is_free_run(before[other], offset, size as int)]
        0 <= other < bank && offset % align as int == 0 implies !is_free_run(
        before[other],
        offset,
        size as int,
    ) by {
        if is_free_run(before[other], offset, size as int) {
            a_bank_with_room_is_not_full(before[other], offset, size, align);
            assert(dram_allocator::full(before[other], size, align));
        }
    }
}

} // verus!
