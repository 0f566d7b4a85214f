use ttx_runtime::bytes;
use ttx_runtime::relocate::{KernelRelocation, RelocationRead};

fn relocation(write_offset: u64, read_offset: RelocationRead, addend: i64) -> KernelRelocation {
    KernelRelocation { write_offset, read_offset, addend }
}

#[test]
fn base_relocation_writes_base_plus_addend() {
    let mut binary = vec![0xff; 12];
    relocation(4, RelocationRead::Base32, 0x10).relocate_binary(0x1234_5600, &mut binary);
    assert_eq!(
        binary,
        [0xff, 0xff, 0xff, 0xff, 0x10, 0x56, 0x34, 0x12, 0xff, 0xff, 0xff, 0xff]
    );
}

#[test]
fn base_relocation_keeps_the_low_half_of_the_base() {
    let mut binary = vec![0; 4];
    relocation(0, RelocationRead::Base32, 1).relocate_binary(0xaaaa_bbbb_0000_0001, &mut binary);
    assert_eq!(binary, [2, 0, 0, 0]);
}

#[test]
fn symbol_relocation_adds_base_and_symbol() {
    let mut binary = vec![0; 4];
    relocation(0, RelocationRead::SymbolValue32(0x200), -1).relocate_binary(0x1000, &mut binary);
    assert_eq!(binary, [0xff, 0x11, 0, 0]);
}

#[test]
fn offset_relocation_reads_the_binary() {
    let mut binary = vec![0, 0, 0, 0, 0x78, 0x56, 0x34, 0x12];
    relocation(0, RelocationRead::Offset(4), 2).relocate_binary(0x1000, &mut binary);
    assert_eq!(binary, [0x7a, 0x56, 0x34, 0x12, 0x78, 0x56, 0x34, 0x12]);
}

#[test]
fn negative_sums_wrap_around() {
    let mut binary = vec![0; 4];
    relocation(0, RelocationRead::Base32, -2).relocate_binary(1, &mut binary);
    assert_eq!(binary, [0xff, 0xff, 0xff, 0xff]);
}

#[test]
fn relocating_through_functions_hands_them_the_offsets() {
    let mut words = vec![7u32, 8, 9];
    relocation(0, RelocationRead::Offset(8), 100).relocate(
        &mut words,
        0,
        |words: &mut Vec<u32>, addr: usize| words[addr / 4],
        |words: &mut Vec<u32>, addr: usize, value: [u8; 4]| {
            words[addr / 4] = u32::from_le_bytes(value)
        },
    );
    assert_eq!(words, [109, 8, 9]);
}

#[test]
fn relocating_through_functions_does_not_read_without_need() {
    let mut seen = Vec::new();
    relocation(12, RelocationRead::SymbolValue32(5), 1).relocate(
        &mut seen,
        0x100,
        |_: &mut Vec<(usize, [u8; 4])>, _: usize| panic!("nothing is to be read"),
        |seen: &mut Vec<(usize, [u8; 4])>, addr: usize, value: [u8; 4]| seen.push((addr, value)),
    );
    assert_eq!(seen, [(12, [6, 1, 0, 0])]);
}

#[test]
fn relocations_that_do_not_fit_are_not_applicable() {
    let binary = [0xff; 8];
    assert!(relocation(4, RelocationRead::Base32, 0).is_applicable(0, &binary));
    assert!(!relocation(5, RelocationRead::Base32, 0).is_applicable(0, &binary));
    assert!(relocation(0, RelocationRead::Offset(4), 0).is_applicable(0, &binary));
    assert!(!relocation(0, RelocationRead::Offset(5), 0).is_applicable(0, &binary));
    assert!(!relocation(0, RelocationRead::Offset(u64::MAX), 0).is_applicable(0, &binary));
    assert!(!relocation(0, RelocationRead::SymbolValue32(1), 0).is_applicable(0xffff_ffff, &binary));
    assert!(relocation(0, RelocationRead::SymbolValue32(1), 0).is_applicable(0xffff_fffe, &binary));
    assert!(!relocation(0, RelocationRead::Base32, i64::MAX).is_applicable(1, &binary));
    assert!(relocation(0, RelocationRead::Base32, i64::MAX).is_applicable(0, &binary));
}

#[test]
fn relocations_apart_give_the_same_in_either_order() {
    let first = relocation(0, RelocationRead::Offset(8), 3);
    let second = relocation(4, RelocationRead::Base32, 5);
    let start = vec![1, 2, 3, 4, 5, 6, 7, 8, 9, 10, 11, 12];
    let mut one = start.clone();
    first.relocate_binary(0x40, &mut one);
    second.relocate_binary(0x40, &mut one);
    let mut other = start;
    second.relocate_binary(0x40, &mut other);
    first.relocate_binary(0x40, &mut other);
    assert_eq!(one, other);
    assert_eq!(one, [12, 10, 11, 12, 0x45, 0, 0, 0, 9, 10, 11, 12]);
}

#[test]
fn bytes_are_little_endian() {
    assert_eq!(bytes::u32_to_le(0x0a0b_0c0d), [0x0d, 0x0c, 0x0b, 0x0a]);
    assert_eq!(bytes::u32_from_le([0x0d, 0x0c, 0x0b, 0x0a]), 0x0a0b_0c0d);
    assert_eq!(bytes::u32_from_le(bytes::u32_to_le(u32::MAX)), u32::MAX);
    let mut out = vec![9];
    bytes::push_u64_le(&mut out, 0x0102_0304_0506_0708);
    assert_eq!(out, [9, 8, 7, 6, 5, 4, 3, 2, 1]);
}
