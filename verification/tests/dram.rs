use ttx_runtime::dram_allocator::MultiBufferAllocator;

fn place(allocator: &mut MultiBufferAllocator, size: usize, align: usize) -> Option<(usize, u64)> {
    allocator.allocate(size, align).map(|block| (block.dram_bank, block.offset))
}

#[test]
fn blocks_are_taken_first_fit() {
    let mut allocator = MultiBufferAllocator::new(vec![100, 100]);
    assert_eq!(place(&mut allocator, 10, 1), Some((0, 0)));
    assert_eq!(place(&mut allocator, 10, 64), Some((0, 64)));
    assert_eq!(place(&mut allocator, 20, 1), Some((0, 10)));
    assert_eq!(place(&mut allocator, 40, 1), Some((1, 0)));
    assert_eq!(place(&mut allocator, 35, 1), Some((1, 40)));
    assert_eq!(place(&mut allocator, 30, 1), Some((0, 30)));
    assert_eq!(place(&mut allocator, 26, 1), Some((0, 74)));
    assert_eq!(place(&mut allocator, 26, 1), None);
    assert_eq!(place(&mut allocator, 25, 1), Some((1, 75)));
}

#[test]
fn nothing_fits_into_no_bank() {
    let mut allocator = MultiBufferAllocator::new(Vec::new());
    assert_eq!(place(&mut allocator, 1, 64), None);
    assert_eq!(place(&mut allocator, 0, 64), None);
}

#[test]
fn a_whole_bank_can_be_taken() {
    let mut allocator = MultiBufferAllocator::new(vec![64]);
    assert_eq!(place(&mut allocator, 64, 64), Some((0, 0)));
    assert_eq!(place(&mut allocator, 1, 1), None);
    allocator.free(0, 0, 64);
    assert_eq!(place(&mut allocator, 64, 64), Some((0, 0)));
}

#[test]
fn freed_neighbours_are_joined() {
    let mut allocator = MultiBufferAllocator::new(vec![96]);
    assert_eq!(place(&mut allocator, 32, 1), Some((0, 0)));
    assert_eq!(place(&mut allocator, 32, 1), Some((0, 32)));
    assert_eq!(place(&mut allocator, 32, 1), Some((0, 64)));
    allocator.free(0, 0, 32);
    allocator.free(0, 64, 32);
    assert_eq!(place(&mut allocator, 64, 1), None);
    allocator.free(0, 32, 32);
    assert_eq!(place(&mut allocator, 96, 1), Some((0, 0)));
}

#[test]
fn freeing_undoes_allocating_on_values() {
    let mut allocator = MultiBufferAllocator::new(vec![1000]);
    let (bank, offset) = place(&mut allocator, 100, 64).unwrap();
    let (other_bank, other_offset) = place(&mut allocator, 100, 64).unwrap();
    assert_eq!((other_bank, other_offset), (0, 128));
    allocator.free(other_bank, other_offset as usize, 100);
    assert_eq!(place(&mut allocator, 100, 64), Some((0, 128)));
    allocator.free(0, 128, 100);
    allocator.free(bank, offset as usize, 100);
    assert_eq!(place(&mut allocator, 1000, 1), Some((0, 0)));
}

#[test]
fn freeing_in_a_bank_that_is_not_there_does_nothing() {
    let mut allocator = MultiBufferAllocator::new(vec![10]);
    allocator.free(3, 0, 5);
    assert_eq!(place(&mut allocator, 11, 1), None);
    assert_eq!(place(&mut allocator, 10, 1), Some((0, 0)));
}

#[test]
fn successive_blocks_are_apart() {
    let mut allocator = MultiBufferAllocator::new(vec![4096]);
    let mut blocks = Vec::new();
    while let Some((_, offset)) = place(&mut allocator, 100, 64) {
        assert_eq!(offset % 64, 0);
        blocks.push(offset);
    }
    assert_eq!(blocks.len(), 32);
    for pair in blocks.windows(2) {
        assert!(pair[0] + 100 <= pair[1]);
    }
}
