//! First-fit allocation of DRAM, one free list for each bank.

use std::collections::BTreeMap;

use vstd::prelude::*;

verus! {

broadcast use vstd::std_specs::btree::group_btree_axioms;

/// The least multiple of `align` that is not below `offset`.
pub open spec fn align_up(offset: int, align: int) -> int {
    ((offset + align - 1) / align) * align
}

/// Whether the free region of `len` bytes at `offset` holds an aligned block of `size` bytes.
pub open spec fn fits(offset: usize, len: usize, size: usize, align: usize) -> bool {
    align_up(offset as int, align as int) + size <= offset + len
}

/// Whether `key` is the lowest region of `regions` that holds an aligned block of `size` bytes.
pub open spec fn is_first_fit(
    regions: Map<usize, usize>,
    key: usize,
    size: usize,
    align: usize,
) -> bool {
    &&& regions.contains_key(key)
    &&& fits(key, regions[key], size, align)
    &&& forall|other: usize| #[trigger]
        regions.contains_key(other) && other < key ==> !fits(other, regions[other], size, align)
}

/// `regions` without the block of `size` bytes at `block`, which lies in the region at `key`.
/// What the block leaves over of the region, in front and behind, stays free.
pub open spec fn carve(
    regions: Map<usize, usize>,
    key: usize,
    block: usize,
    size: usize,
) -> Map<usize, usize> {
    let end = key + regions[key];
    let rest = regions.remove(key);
    let front = if block > key {
        rest.insert(key, (block - key) as usize)
    } else {
        rest
    };
    if end > block + size {
        front.insert((block + size) as usize, (end - (block + size)) as usize)
    } else {
        front
    }
}

/// Whether `key` is the highest region of `regions` that starts below `offset`.
pub open spec fn is_preceding(regions: Map<usize, usize>, offset: usize, key: usize) -> bool {
    &&& regions.contains_key(key)
    &&& key < offset
    &&& forall|other: usize| #[trigger]
        regions.contains_key(other) && other < offset ==> other <= key
}

/// Whether `key` is the lowest region of `regions` that does not start below `offset`.
pub open spec fn is_following(regions: Map<usize, usize>, offset: usize, key: usize) -> bool {
    &&& regions.contains_key(key)
    &&& offset <= key
    &&& forall|other: usize| #[trigger]
        regions.contains_key(other) && offset <= other ==> key <= other
}

/// The region in front of `offset`, if it ends there.
pub open spec fn touching_front(regions: Map<usize, usize>, offset: usize) -> Option<usize> {
    if exists|key: usize| #[trigger]
        is_preceding(regions, offset, key) && key + regions[key] == offset {
        Some(
            choose|key: usize| #[trigger]
                is_preceding(regions, offset, key) && key + regions[key] == offset,
        )
    } else {
        None
    }
}

/// Whether the region that follows `offset` starts at `end`.
pub open spec fn touching_back(regions: Map<usize, usize>, offset: usize, end: int) -> bool {
    &&& end <= usize::MAX
    &&& is_following(regions, offset, end as usize)
}

/// `regions` with the block of `size` bytes at `offset` free again, merged with the regions that
/// touch it.
pub open spec fn release(regions: Map<usize, usize>, offset: usize, size: usize) -> Map<
    usize,
    usize,
> {
    let front = touching_front(regions, offset);
    let start = match front {
        Some(key) => key,
        None => offset,
    };
    let rest = match front {
        Some(key) => regions.remove(key),
        None => regions,
    };
    let end = offset + size;
    if touching_back(rest, offset, end) {
        rest.remove(end as usize).insert(start, (end + rest[end as usize] - start) as usize)
    } else {
        rest.insert(start, (end - start) as usize)
    }
}

/// Every region ends within the address range.
pub open spec fn bounded(regions: Map<usize, usize>) -> bool {
    forall|key: usize| #[trigger] regions.contains_key(key) ==> key + regions[key] <= usize::MAX
}

/// The free regions of one DRAM bank.
#[derive(Debug)]
pub struct Buffer {
    size: usize,
    free_regions: BTreeMap<usize, usize>,
}

impl View for Buffer {
    type V = Map<usize, usize>;

    /// The free regions: where each starts, and how long it is.
    closed spec fn view(&self) -> Map<usize, usize> {
        self.free_regions@
    }
}

impl Buffer {
    /// The size that the bank was made with.
    pub closed spec fn capacity(&self) -> usize {
        self.size
    }

    /// A bank of `size` bytes, all of it free.
    pub fn new(size: usize) -> (buffer: Self)
        ensures
            buffer@ == map![0usize => size],
            buffer.capacity() == size,
            bounded(buffer@),
    {
        let mut free_regions: BTreeMap<usize, usize> = BTreeMap::new();
        free_regions.insert(0, size);
        assert(free_regions@ =~= map![0usize => size]);
        Buffer { size, free_regions }
    }

    /// Takes `size` bytes at a multiple of `align` out of the lowest free region that holds them.
    pub fn allocate(&mut self, size: usize, align: usize) -> (offset: Option<usize>)
        requires
            bounded(old(self)@),
            align > 0 || old(self)@ == Map::<usize, usize>::empty(),
        ensures
            bounded(final(self)@),
            final(self).capacity() == old(self).capacity(),
            match offset {
                Some(block) => exists|key: usize|
                    {
                        &&& #[trigger] is_first_fit(old(self)@, key, size, align)
                        &&& block == align_up(key as int, align as int)
                        &&& final(self)@ == carve(old(self)@, key, block, size)
                    },
                None => {
                    &&& final(self)@ == old(self)@
                    &&& forall|key: usize| #[trigger]
                        old(self)@.contains_key(key) ==> !fits(
                            key,
                            old(self)@[key],
                            size,
                            align,
                        )
                },
            },
    {
        let found = self.find(size, align);
        match found {
            None => None,
            Some((key, len)) => {
                let block: usize = round_up(key, align) as usize;
                let end: usize = key + len;
                self.free_regions.remove(&key);
                if block > key {
                    self.free_regions.insert(key, block - key);
                }
                if end > block + size {
                    self.free_regions.insert(block + size, end - (block + size));
                }
                assert(is_first_fit(old(self)@, key, size, align));
                Some(block)
            },
        }
    }

    /// The lowest free region that holds an aligned block of `size` bytes, and its length.
    fn find(&self, size: usize, align: usize) -> (found: Option<(usize, usize)>)
        requires
            bounded(self@),
            align > 0 || self@ == Map::<usize, usize>::empty(),
        ensures
            match found {
                Some((key, len)) => is_first_fit(self@, key, size, align) && len == self@[key],
                None => forall|key: usize| #[trigger]
                    self@.contains_key(key) ==> !fits(key, self@[key], size, align),
            },
    {
        proof {
            lemma_usize_keys();
        }
        for entry in it: self.free_regions.iter()
            invariant
                align > 0 || self@ == Map::<usize, usize>::empty(),
                bounded(self@),
                vstd::std_specs::btree::key_obeys_cmp_spec::<usize>(),
                vstd::std_specs::btree::increasing_seq(
                    it.seq().map_values(|kv: (&usize, &usize)| *kv.0),
                ),
                forall|i: int|
                    0 <= i < it.index() ==> !fits(
                        *(#[trigger] it.seq()[i]).0,
                        *it.seq()[i].1,
                        size,
                        align,
                    ),
        {
            let key: usize = *entry.0;
            let len: usize = *entry.1;
            assert(self@.contains_key(key) && self@[key] == len);
            if holds(key, len, size, align) {
                proof {
                    let keys = it.seq().map_values(|kv: (&usize, &usize)| *kv.0);
                    lemma_increasing(keys);
                    assert(keys[it.index()] == key);
                    assert forall|other: usize| #[trigger]
                        self@.contains_key(other) && other < key implies !fits(
                        other,
                        self@[other],
                        size,
                        align,
                    ) by {
                        assert(it.seq().contains((&other, &self@[other])));
                        let j = choose|j: int|
                            0 <= j < it.seq().len() && it.seq()[j] == (&other, &self@[other]);
                        assert(keys[j] == other);
                    }
                }
                return Some((key, len));
            }
        }
        None
    }
}

impl Buffer {
    /// The highest free region that starts below `offset`, and its length.
    fn preceding(&self, offset: usize) -> (found: Option<(usize, usize)>)
        ensures
            match found {
                Some((key, len)) => is_preceding(self@, offset, key) && len == self@[key],
                None => forall|key: usize| #[trigger] self@.contains_key(key) ==> offset <= key,
            },
    {
        let mut found: Option<(usize, usize)> = None;
        proof {
            lemma_usize_keys();
        }
        for entry in it: self.free_regions.iter()
            invariant
                match found {
                    Some((key, len)) => {
                        &&& self@.contains_key(key)
                        &&& key < offset
                        &&& len == self@[key]
                        &&& forall|i: int|
                            0 <= i < it.index() && *(#[trigger] it.seq()[i]).0 < offset
                                ==> *it.seq()[i].0 <= key
                    },
                    None => forall|i: int|
                        0 <= i < it.index() ==> offset <= *(#[trigger] it.seq()[i]).0,
                },
        {
            let key: usize = *entry.0;
            let len: usize = *entry.1;
            assert(self@.contains_key(key) && self@[key] == len);
            if key < offset {
                match found {
                    Some((best, _)) => {
                        if best < key {
                            found = Some((key, len));
                        }
                    },
                    None => {
                        found = Some((key, len));
                    },
                }
            }
        }
        proof {
            assert forall|other: usize| #[trigger] self@.contains_key(other) && other < offset implies (
            match found {
                Some((key, _)) => other <= key,
                None => false,
            }) by {
                let seen = vstd::std_specs::iter::IteratorSpec::remaining(&self.free_regions.iter());
                assert(seen.contains((&other, &self@[other])));
            }
        }
        found
    }

    /// The lowest free region that does not start below `offset`, and its length.
    fn following(&self, offset: usize) -> (found: Option<(usize, usize)>)
        ensures
            match found {
                Some((key, len)) => is_following(self@, offset, key) && len == self@[key],
                None => forall|key: usize| #[trigger] self@.contains_key(key) ==> key < offset,
            },
    {
        let mut found: Option<(usize, usize)> = None;
        proof {
            lemma_usize_keys();
        }
        for entry in it: self.free_regions.iter()
            invariant
                match found {
                    Some((key, len)) => {
                        &&& self@.contains_key(key)
                        &&& offset <= key
                        &&& len == self@[key]
                        &&& forall|i: int|
                            0 <= i < it.index() && offset <= *(#[trigger] it.seq()[i]).0
                                ==> key <= *it.seq()[i].0
                    },
                    None => forall|i: int|
                        0 <= i < it.index() ==> *(#[trigger] it.seq()[i]).0 < offset,
                },
        {
            let key: usize = *entry.0;
            let len: usize = *entry.1;
            assert(self@.contains_key(key) && self@[key] == len);
            if offset <= key {
                match found {
                    Some((best, _)) => {
                        if key < best {
                            found = Some((key, len));
                        }
                    },
                    None => {
                        found = Some((key, len));
                    },
                }
            }
        }
        proof {
            assert forall|other: usize| #[trigger] self@.contains_key(other) && offset <= other implies (
            match found {
                Some((key, _)) => key <= other,
                None => false,
            }) by {
                let seen = vstd::std_specs::iter::IteratorSpec::remaining(&self.free_regions.iter());
                assert(seen.contains((&other, &self@[other])));
            }
        }
        found
    }

    /// Makes the `size` bytes at `offset` free again, and merges them with the free regions that
    /// touch them.
    pub fn free(&mut self, offset: usize, size: usize)
        requires
            bounded(old(self)@),
            offset + size <= usize::MAX,
        ensures
            final(self)@ == release(old(self)@, offset, size),
            final(self).capacity() == old(self).capacity(),
            bounded(final(self)@),
    {
        let mut start: usize = offset;
        let mut end: usize = offset + size;
        let ghost before = self@;

        let front = self.preceding(offset);
        if let Some((prev_offset, prev_size)) = front {
            if prev_offset + prev_size == offset {
                start = prev_offset;
                self.free_regions.remove(&prev_offset);
            }
        }
        let ghost rest = self@;
        proof {
            let touching = touching_front(before, offset);
            if let Some(key) = touching {
                assert(is_preceding(before, offset, key));
                assert(before.contains_key(key));
                assert(front == Some((key, before[key])));
                assert(rest == before.remove(key));
            } else {
                if let Some((key, _)) = front {
                    assert(is_preceding(before, offset, key));
                }
                assert(rest == before);
            }
        }
        let back = self.following(offset);
        if let Some((next_offset, next_size)) = back {
            if offset + size == next_offset {
                end = next_offset + next_size;
                self.free_regions.remove(&next_offset);
            }
        }
        proof {
            if touching_back(rest, offset, offset + size) {
                assert(rest.contains_key((offset + size) as usize));
                assert(back == Some(((offset + size) as usize, rest[(offset + size) as usize])));
            }
        }
        self.free_regions.insert(start, end - start);
    }
}

/// A DRAM allocator over several banks, each with a free list of its own.
#[derive(Debug)]
pub struct MultiBufferAllocator {
    buffers: Vec<Buffer>,
}

/// A block of DRAM.
pub struct Allocation {
    /// The bank that holds the block.
    pub dram_bank: usize,
    /// Where the block starts in its bank.
    pub offset: u64,
}

impl View for MultiBufferAllocator {
    type V = Seq<Map<usize, usize>>;

    /// The free regions of each bank.
    closed spec fn view(&self) -> Seq<Map<usize, usize>> {
        Seq::new(self.buffers@.len(), |bank: int| self.buffers@[bank]@)
    }
}

/// No region of the bank holds an aligned block of `size` bytes.
pub open spec fn full(regions: Map<usize, usize>, size: usize, align: usize) -> bool {
    forall|key: usize| #[trigger]
        regions.contains_key(key) ==> !fits(key, regions[key], size, align)
}

/// `after` is `before` without `block`, which lies in the lowest region, at `key`, that holds
/// `size` aligned bytes in the first bank with such a region.
pub open spec fn taken(
    before: Seq<Map<usize, usize>>,
    after: Seq<Map<usize, usize>>,
    block: Allocation,
    key: usize,
    size: usize,
    align: usize,
) -> bool {
    let bank = block.dram_bank as int;
    &&& 0 <= bank < before.len()
    &&& forall|other: int| 0 <= other < bank ==> full(#[trigger] before[other], size, align)
    &&& is_first_fit(before[bank], key, size, align)
    &&& block.offset == align_up(key as int, align as int)
    &&& after == before.update(bank, carve(before[bank], key, block.offset as usize, size))
}

/// `after` is `before` without `block`, taken first-fit from the first bank with room for `size`
/// aligned bytes.
pub open spec fn allocated(
    before: Seq<Map<usize, usize>>,
    after: Seq<Map<usize, usize>>,
    block: Allocation,
    size: usize,
    align: usize,
) -> bool {
    exists|key: usize| #[trigger] taken(before, after, block, key, size, align)
}

impl MultiBufferAllocator {
    /// Every region of every bank ends within the address range.
    pub open spec fn valid(&self) -> bool {
        forall|bank: int| 0 <= bank < self@.len() ==> bounded(#[trigger] self@[bank])
    }

    /// Banks of the given sizes, all of them free.
    pub fn new(buffer_sizes: Vec<usize>) -> (allocator: Self)
        ensures
            allocator.valid(),
            allocator@ == Seq::new(
                buffer_sizes@.len(),
                |bank: int| map![0usize => buffer_sizes@[bank]],
            ),
    {
        let mut buffers: Vec<Buffer> = Vec::new();
        for i in 0..buffer_sizes.len()
            invariant
                buffers@.len() == i,
                forall|bank: int|
                    0 <= bank < i ==> (#[trigger] buffers@[bank])@ == map![
                        0usize => buffer_sizes@[bank],
                    ] && bounded(buffers@[bank]@),
        {
            buffers.push(Buffer::new(buffer_sizes[i]));
        }
        MultiBufferAllocator { buffers }
    }

    /// Takes `size` bytes at a multiple of `align` out of the first bank that has room for them.
    pub fn allocate(&mut self, size: usize, align: usize) -> (allocation: Option<Allocation>)
        requires
            old(self).valid(),
            align > 0 || forall|bank: int|
                0 <= bank < old(self)@.len() ==> #[trigger] old(self)@[bank] == Map::<
                    usize,
                    usize,
                >::empty(),
        ensures
            final(self).valid(),
            match allocation {
                Some(block) => allocated(old(self)@, final(self)@, block, size, align),
                None => {
                    &&& final(self)@ == old(self)@
                    &&& forall|bank: int|
                        0 <= bank < old(self)@.len() ==> full(
                            #[trigger] old(self)@[bank],
                            size,
                            align,
                        )
                },
            },
    {
        let mut i: usize = 0;
        while i < self.buffers.len()
            invariant
                self.valid(),
                align > 0 || forall|bank: int|
                    0 <= bank < self@.len() ==> #[trigger] self@[bank] == Map::<
                        usize,
                        usize,
                    >::empty(),
                self@ == old(self)@,
                i <= self.buffers@.len(),
                forall|bank: int| 0 <= bank < i ==> full(#[trigger] self@[bank], size, align),
            decreases self.buffers@.len() - i,
        {
            let ghost before = self@;
            assert(self@[i as int] == self.buffers@[i as int]@);
            let found = self.buffers[i].allocate(size, align);
            if let Some(offset) = found {
                let block = Allocation { dram_bank: i, offset: offset as u64 };
                proof {
                    let key = choose|key: usize|
                        {
                            &&& #[trigger] is_first_fit(before[i as int], key, size, align)
                            &&& offset == align_up(key as int, align as int)
                            &&& self.buffers@[i as int]@ == carve(
                                before[i as int],
                                key,
                                offset,
                                size,
                            )
                        };
                    assert(self@ =~= before.update(
                        i as int,
                        carve(before[i as int], key, offset, size),
                    ));
                    assert(taken(old(self)@, self@, block, key, size, align));
                }
                assert(allocated(old(self)@, self@, block, size, align));
                return Some(block);
            }
            assert(self@ =~= before);
            i = i + 1;
        }
        None
    }

    /// Frees a previously allocated block. A bank that does not exist is ignored.
    pub fn free(&mut self, buffer_index: usize, offset: usize, size: usize)
        requires
            old(self).valid(),
            buffer_index < old(self)@.len() ==> offset + size <= usize::MAX,
        ensures
            final(self).valid(),
            final(self)@ == (if buffer_index < old(self)@.len() {
                old(self)@.update(
                    buffer_index as int,
                    release(old(self)@[buffer_index as int], offset, size),
                )
            } else {
                old(self)@
            }),
    {
        if buffer_index < self.buffers.len() {
            let ghost before = self@;
            assert(self@[buffer_index as int] == self.buffers@[buffer_index as int]@);
            self.buffers[buffer_index].free(offset, size);
            assert(self@ =~= before.update(
                buffer_index as int,
                release(before[buffer_index as int], offset, size),
            ));
        }
    }
}

/// Whether the free region of `len` bytes at `offset` holds an aligned block of `size` bytes.
fn holds(offset: usize, len: usize, size: usize, align: usize) -> (held: bool)
    requires
        align > 0,
    ensures
        held == fits(offset, len, size, align),
{
    round_up(offset, align) + size as u128 <= offset as u128 + len as u128
}

/// The order on `usize` is the one that an ordered map relies on.
proof fn lemma_usize_keys()
    ensures
        vstd::laws_cmp::obeys_cmp::<usize>(),
        vstd::std_specs::btree::key_obeys_cmp_spec::<usize>(),
{
    broadcast use vstd::laws_cmp::group_laws_cmp;

}

/// The keys that an ordered map hands out rise.
proof fn lemma_increasing(keys: Seq<usize>)
    requires
        vstd::std_specs::btree::increasing_seq(keys),
    ensures
        forall|i: int, j: int| 0 <= i < j < keys.len() ==> keys[i] < keys[j],
{
    lemma_usize_keys();
    assert forall|i: int, j: int| 0 <= i < j < keys.len() implies keys[i] < keys[j] by {
        assert(vstd::std_specs::cmp::OrdSpec::cmp_spec(&keys[i], &keys[j]) is Less);
    }
}

/// `align_up(offset, align)` is a multiple of `align`, and the least that is not below `offset`.
pub proof fn align_up_is_least_multiple(offset: int, align: int)
    requires
        align > 0,
    ensures
        align_up(offset, align) % align == 0,
        offset <= align_up(offset, align) < offset + align,
        forall|other: int|
            offset <= other && #[trigger] (other % align) == 0 ==> align_up(offset, align) <= other,
{
    let sum = offset + align - 1;
    let up = align_up(offset, align);
    vstd::arithmetic::div_mod::lemma_fundamental_div_mod(sum, align);
    vstd::arithmetic::div_mod::lemma_mod_bound(sum, align);
    assert(up == align * (sum / align)) by (nonlinear_arith)
        requires
            up == (sum / align) * align,
    ;
    vstd::arithmetic::div_mod::lemma_mod_multiples_basic(sum / align, align);
    assert forall|other: int| offset <= other && #[trigger] (other % align) == 0 implies up
        <= other by {
        vstd::arithmetic::div_mod::lemma_fundamental_div_mod(other, align);
        let q = other / align;
        if other < up {
            assert(q * align < (sum / align) * align) by (nonlinear_arith)
                requires
                    align * q < up,
                    up == (sum / align) * align,
            ;
            assert(q < sum / align) by (nonlinear_arith)
                requires
                    q * align < (sum / align) * align,
                    align > 0,
            ;
            assert(align * (q + 1) <= up) by (nonlinear_arith)
                requires
                    q + 1 <= sum / align,
                    up == (sum / align) * align,
                    align > 0,
            ;
            assert(align * (q + 1) == align * q + align) by (nonlinear_arith);
        }
    }
}

/// The least multiple of `align` that is not below `offset`.
fn round_up(offset: usize, align: usize) -> (aligned: u128)
    requires
        align > 0,
    ensures
        aligned == align_up(offset as int, align as int),
        offset <= aligned < offset + align,
{
    proof {
        align_up_is_least_multiple(offset as int, align as int);
    }
    let sum: u128 = offset as u128 + align as u128 - 1;
    (sum / align as u128) * align as u128
}

/// Whether the byte at `byte` lies in a free region.
pub open spec fn is_free(regions: Map<usize, usize>, byte: int) -> bool {
    exists|key: usize| #[trigger] regions.contains_key(key) && key <= byte < key + regions[key]
}

/// No two regions share a byte.
pub open spec fn disjoint(regions: Map<usize, usize>) -> bool {
    forall|low: usize, high: usize| #[trigger]
        regions.contains_key(low) && #[trigger] regions.contains_key(high) && low < high ==> low
            + regions[low] <= high
}

/// Between any two regions lies at least one byte that is in use.
pub open spec fn coalesced(regions: Map<usize, usize>) -> bool {
    forall|low: usize, high: usize| #[trigger]
        regions.contains_key(low) && #[trigger] regions.contains_key(high) && low < high ==> low
            + regions[low] < high
}

/// Every region lies in the first `size` bytes.
pub open spec fn within(regions: Map<usize, usize>, size: usize) -> bool {
    forall|key: usize| #[trigger] regions.contains_key(key) ==> key + regions[key] <= size
}

/// No region is empty.
pub open spec fn positive(regions: Map<usize, usize>) -> bool {
    forall|key: usize| #[trigger] regions.contains_key(key) ==> regions[key] > 0
}

/// All the bytes of a fresh bank are free, in one region.
pub proof fn a_fresh_bank_is_free(size: usize)
    ensures
        forall|byte: int| #[trigger]
            is_free(map![0usize => size], byte) <==> 0 <= byte < size,
        coalesced(map![0usize => size]),
        disjoint(map![0usize => size]),
        within(map![0usize => size], size),
        size > 0 ==> positive(map![0usize => size]),
{
    let regions = map![0usize => size];
    assert(regions.contains_key(0usize));
}

/// An allocated block is aligned, was free before, and is all that stops being free. The free
/// regions stay disjoint, stay within the bank, and, where the block is not empty, stay coalesced.
pub proof fn allocation_takes_an_aligned_free_block(
    regions: Map<usize, usize>,
    key: usize,
    block: usize,
    size: usize,
    align: usize,
    capacity: usize,
)
    requires
        align > 0,
        disjoint(regions),
        within(regions, capacity),
        is_first_fit(regions, key, size, align),
        block == align_up(key as int, align as int),
    ensures
        block as int % align as int == 0,
        block + size <= capacity,
        forall|byte: int| block <= byte < block + size ==> #[trigger] is_free(regions, byte),
        forall|byte: int| #[trigger]
            is_free(carve(regions, key, block, size), byte) <==> is_free(regions, byte) && !(block
                <= byte < block + size),
        disjoint(carve(regions, key, block, size)),
        within(carve(regions, key, block, size), capacity),
        coalesced(regions) && size > 0 ==> coalesced(carve(regions, key, block, size)),
        positive(regions) ==> positive(carve(regions, key, block, size)),
{
    align_up_is_least_multiple(key as int, align as int);
    let after = carve(regions, key, block, size);
    assert forall|byte: int| block <= byte < block + size implies #[trigger] is_free(
        regions,
        byte,
    ) by {
        assert(regions.contains_key(key));
    }
    assert forall|byte: int| #[trigger] is_free(after, byte) implies is_free(regions, byte) && !(
    block <= byte < block + size) by {
        let home = choose|k: usize| #[trigger]
            after.contains_key(k) && k <= byte < k + after[k];
        if home == key || home == block + size {
            assert(regions.contains_key(key));
        } else {
            assert(regions.contains_key(home) && regions[home] == after[home]);
        }
    }
    assert forall|byte: int| is_free(regions, byte) && !(block <= byte < block + size) implies #[trigger] is_free(
    after, byte) by {
        let home = choose|k: usize| #[trigger]
            regions.contains_key(k) && k <= byte < k + regions[k];
        if home == key {
            if byte < block {
                assert(after.contains_key(key));
            } else {
                assert(after.contains_key((block + size) as usize));
            }
        } else {
            assert(after.contains_key(home) && after[home] == regions[home]);
        }
    }
}

/// Freeing a block whose bytes are in use makes exactly those bytes free, and keeps the free
/// regions disjoint and within the bank. Where the regions were coalesced they stay so.
pub proof fn freeing_returns_the_block(
    regions: Map<usize, usize>,
    offset: usize,
    size: usize,
    capacity: usize,
)
    requires
        disjoint(regions),
        within(regions, capacity),
        0 < size,
        offset + size <= capacity,
        forall|byte: int| offset <= byte < offset + size ==> !#[trigger] is_free(regions, byte),
        positive(regions),
    ensures
        forall|byte: int| #[trigger]
            is_free(release(regions, offset, size), byte) <==> is_free(regions, byte) || offset
                <= byte < offset + size,
        disjoint(release(regions, offset, size)),
        within(release(regions, offset, size), capacity),
        positive(release(regions, offset, size)),
        coalesced(regions) ==> coalesced(release(regions, offset, size)),
{
    let after = release(regions, offset, size);
    let end = (offset + size) as usize;
    let front = touching_front(regions, offset);
    let rest = match front {
        Some(key) => regions.remove(key),
        None => regions,
    };
    assert(!is_free(regions, offset as int));
    // No region starts inside the block or reaches into it.
    assert forall|key: usize| #[trigger] regions.contains_key(key) implies key + regions[key]
        <= offset || end <= key by {
        if key <= offset {
            if key + regions[key] > offset {
                assert(is_free(regions, offset as int));
            }
        } else if key < end {
            assert(is_free(regions, key as int));
        }
    }
    // A region that touches the block from behind is the one that follows it.
    assert forall|key: usize| #[trigger] rest.contains_key(key) && key == end implies touching_back(
        rest,
        offset,
        end as int,
    ) by {
        assert(regions.contains_key(key));
        assert forall|other: usize| #[trigger]
            rest.contains_key(other) && offset <= other implies end <= other by {
            assert(regions.contains_key(other));
        }
    }
    // A region that touches the block from the front is the one that precedes it.
    assert forall|key: usize| #[trigger]
        regions.contains_key(key) && key + regions[key] == offset implies front == Some(key) by {
        assert forall|other: usize| #[trigger]
            regions.contains_key(other) && other < offset implies other <= key by {
            assert(regions.contains_key(key));
        }
        assert(is_preceding(regions, offset, key));
        let found = front.unwrap();
        assert(is_preceding(regions, offset, found));
    }
    let start = match front {
        Some(key) => key,
        None => offset,
    };
    if let Some(key) = front {
        assert(is_preceding(regions, offset, key));
        assert(regions.contains_key(key));
    }
    assert(after.contains_key(start));
    assert forall|byte: int| #[trigger] is_free(after, byte) implies is_free(regions, byte)
        || offset <= byte < offset + size by {
        let home = choose|k: usize| #[trigger]
            after.contains_key(k) && k <= byte < k + after[k];
        if home == start {
            if byte < offset {
                assert(regions.contains_key(start));
            } else if byte >= end {
                assert(touching_back(rest, offset, end as int));
                assert(regions.contains_key(end));
            }
        } else {
            assert(regions.contains_key(home) && regions[home] == after[home]);
        }
    }
    assert forall|byte: int| is_free(regions, byte) || offset <= byte < offset + size implies #[trigger] is_free(
    after, byte) by {
        if offset <= byte < offset + size {
        } else {
            let home = choose|k: usize| #[trigger]
                regions.contains_key(k) && k <= byte < k + regions[k];
            if front == Some(home) {
            } else {
                assert(rest.contains_key(home));
                if home == end {
                    assert(touching_back(rest, offset, end as int));
                } else {
                    assert(after.contains_key(home) && after[home] == regions[home]);
                }
            }
        }
    }
    assert forall|low: usize, high: usize| #[trigger]
        after.contains_key(low) && #[trigger] after.contains_key(high) && low < high implies low
        + after[low] <= high && (coalesced(regions) ==> low + after[low] < high) by {
        if low != start {
            assert(regions.contains_key(low) && regions[low] == after[low]);
        }
        if high != start {
            assert(regions.contains_key(high) && regions[high] == after[high]);
            assert(rest.contains_key(high));
        }
        if low == start {
            if touching_back(rest, offset, end as int) {
                assert(regions.contains_key(end));
            }
        }
    }
    assert forall|key: usize| #[trigger] after.contains_key(key) implies key + after[key]
        <= capacity by {
        if key != start {
            assert(regions.contains_key(key) && regions[key] == after[key]);
        } else if touching_back(rest, offset, end as int) {
            assert(regions.contains_key(end));
        }
    }
}

/// Freeing a block that was just allocated brings back the free regions as they were.
pub proof fn freeing_undoes_allocating(
    regions: Map<usize, usize>,
    key: usize,
    block: usize,
    size: usize,
    align: usize,
)
    requires
        align > 0,
        0 < size,
        bounded(regions),
        coalesced(regions),
        is_first_fit(regions, key, size, align),
        block == align_up(key as int, align as int),
    ensures
        release(carve(regions, key, block, size), block, size) == regions,
{
    align_up_is_least_multiple(key as int, align as int);
    let mid = carve(regions, key, block, size);
    let end = (block + size) as usize;
    let front = touching_front(mid, block);
    if block > key {
        assert(mid.contains_key(key));
        assert forall|other: usize| #[trigger] mid.contains_key(other) && other < block implies other
            <= key by {
            if other > key {
                assert(regions.contains_key(other));
            }
        }
        assert(is_preceding(mid, block, key));
        let found = front.unwrap();
        assert(is_preceding(mid, block, found));
        assert(front == Some(key));
    } else {
        assert(front is None) by {
            if let Some(found) = front {
                assert(is_preceding(mid, block, found));
                assert(regions.contains_key(found));
                assert(regions.contains_key(key));
            }
        }
    }
    let rest = match front {
        Some(k) => mid.remove(k),
        None => mid,
    };
    if key + regions[key] > end {
        assert(rest.contains_key(end));
        assert forall|other: usize| #[trigger] rest.contains_key(other) && block <= other implies end
            <= other by {
            if other != end {
                assert(regions.contains_key(other));
                assert(regions.contains_key(key));
            }
        }
        assert(touching_back(rest, block, end as int));
    } else {
        assert(!touching_back(rest, block, end as int)) by {
            if touching_back(rest, block, end as int) {
                assert(rest.contains_key(end));
                assert(regions.contains_key(end));
                assert(regions.contains_key(key));
            }
        }
    }
    assert(release(mid, block, size) =~= regions);
}

/// Two blocks allocated one after the other lie in different banks or share no byte.
pub proof fn successive_blocks_do_not_overlap(
    before: Seq<Map<usize, usize>>,
    between: Seq<Map<usize, usize>>,
    after: Seq<Map<usize, usize>>,
    first: Allocation,
    first_size: usize,
    first_align: usize,
    second: Allocation,
    second_size: usize,
    second_align: usize,
)
    requires
        forall|bank: int| 0 <= bank < before.len() ==> disjoint(#[trigger] before[bank]),
        forall|bank: int| 0 <= bank < before.len() ==> bounded(#[trigger] before[bank]),
        first_align > 0,
        second_align > 0,
        allocated(before, between, first, first_size, first_align),
        allocated(between, after, second, second_size, second_align),
        first.offset <= usize::MAX,
        second.offset <= usize::MAX,
    ensures
        first.dram_bank != second.dram_bank || first.offset + first_size <= second.offset
            || second.offset + second_size <= first.offset || first_size == 0 || second_size == 0,
{
    let key1 = choose|key: usize| #[trigger]
        taken(before, between, first, key, first_size, first_align);
    let key2 = choose|key: usize| #[trigger]
        taken(between, after, second, key, second_size, second_align);
    let bank = first.dram_bank as int;
    if first.dram_bank == second.dram_bank && first_size > 0 && second_size > 0 {
        assert(within(before[bank], usize::MAX));
        allocation_takes_an_aligned_free_block(
            before[bank],
            key1,
            first.offset as usize,
            first_size,
            first_align,
            usize::MAX,
        );
        allocation_takes_an_aligned_free_block(
            between[bank],
            key2,
            second.offset as usize,
            second_size,
            second_align,
            usize::MAX,
        );
        let byte = if first.offset <= second.offset {
            second.offset as int
        } else {
            first.offset as int
        };
        if !(first.offset + first_size <= second.offset || second.offset + second_size
            <= first.offset) {
            assert(is_free(between[bank], byte));
        }
    }
}

/// Freeing what an allocator just handed out brings it back to where it was.
pub proof fn freeing_undoes_allocating_across_banks(
    before: Seq<Map<usize, usize>>,
    after: Seq<Map<usize, usize>>,
    block: Allocation,
    size: usize,
    align: usize,
)
    requires
        forall|bank: int| 0 <= bank < before.len() ==> coalesced(#[trigger] before[bank]),
        forall|bank: int| 0 <= bank < before.len() ==> bounded(#[trigger] before[bank]),
        align > 0,
        0 < size,
        allocated(before, after, block, size, align),
        block.offset <= usize::MAX,
    ensures
        after.update(
            block.dram_bank as int,
            release(after[block.dram_bank as int], block.offset as usize, size),
        ) == before,
{
    let key = choose|key: usize| #[trigger] taken(before, after, block, key, size, align);
    let bank = block.dram_bank as int;
    freeing_undoes_allocating(before[bank], key, block.offset as usize, size, align);
    assert(after.update(bank, release(after[bank], block.offset as usize, size)) =~= before);
}

} // verus!
