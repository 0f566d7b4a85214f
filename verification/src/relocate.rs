//! Relocations, applied to a kernel that is loaded as one block.

use vstd::prelude::*;

use crate::bytes;

verus! {

/// The value to substitute on the right side of the relocation operation.
#[derive(Clone, Copy)]
pub enum RelocationRead {
    /// Instead of reading, substitute the loaded binary base.
    Base32,
    /// Relocate based on the symbol value. The loaded base is added to it.
    SymbolValue32(u32),
    /// Offset from the loaded base to read from.
    Offset(u64),
}

/// A relocation of a self-contained kernel. All sections are loaded as a single block, so it is
/// known in advance where symbols are located relative to a global base.
#[derive(Clone, Copy)]
pub struct KernelRelocation {
    /// The offset relative to the bottom of the binary where the write needs to happen.
    pub write_offset: u64,
    /// Where the value comes from.
    pub read_offset: RelocationRead,
    /// A constant value to add to the result of the read.
    pub addend: i64,
}

/// What a relocation that reads `value` writes.
pub open spec fn relocated(value: u32, addend: i64) -> u32 {
    bytes::low32(value + addend) as u32
}

impl KernelRelocation {
    /// Whether the addend can be added to `value`.
    pub open spec fn addable(&self, value: u32) -> bool {
        i64::MIN <= value + self.addend <= i64::MAX
    }

    /// The value that comes from the base alone, for a relocation that does not read.
    pub open spec fn substituted(&self, base_addr: u64) -> int {
        match self.read_offset {
            RelocationRead::Base32 => bytes::low32(base_addr as int),
            RelocationRead::SymbolValue32(value) => bytes::low32(base_addr as int) + value,
            RelocationRead::Offset(_) => 0,
        }
    }

    /// Applies the relocation to `data`, which is loaded at `base_addr`, through the functions that
    /// read and write 32 bits of it.
    pub fn relocate<T>(
        &self,
        data: &mut T,
        base_addr: u64,
        read32: impl FnOnce(&mut T, usize) -> u32,
        write32: impl FnOnce(&mut T, usize, [u8; 4]),
    )
        requires
            match self.read_offset {
                RelocationRead::Offset(read_offset) => {
                    forall|d: &mut T|
                        *d == *old(data) ==> #[trigger] call_requires(
                            read32,
                            (d, read_offset as usize),
                        )
                },
                _ => self.substituted(base_addr) <= u32::MAX && self.addable(
                    self.substituted(base_addr) as u32,
                ),
            },
            match self.read_offset {
                RelocationRead::Offset(read_offset) => {
                    forall|d: &mut T, value: u32| #[trigger]
                        call_ensures(read32, (d, read_offset as usize), value) && *d == *old(data)
                            ==> self.addable(value)
                },
                _ => true,
            },
            match self.read_offset {
                RelocationRead::Offset(read_offset) => {
                    forall|r: &mut T, value: u32, d: &mut T, bytes: [u8; 4]|
                        {
                            &&& #[trigger] call_ensures(read32, (r, read_offset as usize), value)
                            &&& *r == *old(data)
                            &&& *d == *final(r)
                            &&& bytes@ == bytes::le32(relocated(value, self.addend))
                        } ==> #[trigger] call_requires(
                            write32,
                            (d, self.write_offset as usize, bytes),
                        )
                },
                _ => forall|d: &mut T, bytes: [u8; 4]|
                    {
                        &&& *d == *old(data)
                        &&& bytes@ == bytes::le32(
                            relocated(self.substituted(base_addr) as u32, self.addend),
                        )
                    } ==> #[trigger] call_requires(write32, (d, self.write_offset as usize, bytes)),
            },
        ensures
            match self.read_offset {
                RelocationRead::Offset(read_offset) => exists|
                    r: &mut T,
                    value: u32,
                    w: &mut T,
                    bytes: [u8; 4],
                | {
                    &&& #[trigger] call_ensures(read32, (r, read_offset as usize), value)
                    &&& *r == *old(data)
                    &&& *w == *final(r)
                    &&& bytes@ == bytes::le32(relocated(value, self.addend))
                    &&& #[trigger] call_ensures(write32, (w, self.write_offset as usize, bytes), ())
                    &&& *final(w) == *final(data)
                },
                _ => exists|w: &mut T, bytes: [u8; 4]| {
                    &&& *w == *old(data)
                    &&& bytes@ == bytes::le32(
                        relocated(self.substituted(base_addr) as u32, self.addend),
                    )
                    &&& #[trigger] call_ensures(write32, (w, self.write_offset as usize, bytes), ())
                    &&& *final(w) == *final(data)
                },
            },
    {
        let value: u32 = match self.read_offset {
            RelocationRead::Base32 => {
                proof { bytes::lemma_low32_of_u64(base_addr); }
                base_addr as u32
            },
            RelocationRead::SymbolValue32(value) => {
                proof { bytes::lemma_low32_of_u64(base_addr); }
                base_addr as u32 + value
            },
            RelocationRead::Offset(read_offset) => read32(data, read_offset as usize),
        };
        let bytes = self.patch(value);
        write32(data, self.write_offset as usize, bytes);
    }

    /// Whether the relocation stays within `binary` and its arithmetic does not overflow.
    pub open spec fn applicable(&self, base_addr: u64, binary: Seq<u8>) -> bool {
        &&& self.write_offset + 4 <= binary.len()
        &&& self.read_offset matches RelocationRead::Offset(read_offset) ==> read_offset + 4
            <= binary.len()
        &&& 0 <= self.value(base_addr, binary) <= u32::MAX
        &&& self.addable(self.value(base_addr, binary) as u32)
    }

    /// The value that the addend is added to.
    pub open spec fn value(&self, base_addr: u64, binary: Seq<u8>) -> int {
        match self.read_offset {
            RelocationRead::Offset(read_offset) => bytes::from_le32(
                binary.skip(read_offset as int),
            ),
            _ => self.substituted(base_addr),
        }
    }

    /// The binary after the relocation.
    pub open spec fn relocated_binary(&self, base_addr: u64, binary: Seq<u8>) -> Seq<u8> {
        bytes::overlay(
            binary,
            self.write_offset as int,
            bytes::le32(relocated(self.value(base_addr, binary) as u32, self.addend)),
        )
    }

    /// Whether the relocation can be applied to a binary that is loaded at `base_addr`.
    pub fn is_applicable(&self, base_addr: u64, binary: &[u8]) -> (yes: bool)
        ensures
            yes == self.applicable(base_addr, binary@),
    {
        proof {
            bytes::lemma_low32_of_u64(base_addr);
        }
        let total: u128 = binary.len() as u128;
        if self.write_offset as u128 + 4 > total {
            return false;
        }
        let value: u64 = match self.read_offset {
            RelocationRead::Base32 => base_addr as u32 as u64,
            RelocationRead::SymbolValue32(value) => base_addr as u32 as u64 + value as u64,
            RelocationRead::Offset(read_offset) => {
                if read_offset as u128 + 4 > total {
                    return false;
                }
                let at: usize = read_offset as usize;
                bytes::u32_from_le(
                    [binary[at], binary[at + 1], binary[at + 2], binary[at + 3]],
                ) as u64
            },
        };
        let sum: i128 = value as i128 + self.addend as i128;
        value <= u32::MAX as u64 && sum <= i64::MAX as i128
    }

    /// Applies the relocation to a binary that is loaded at `base_addr`.
    pub fn relocate_binary(&self, base_addr: u64, binary: &mut [u8])
        requires
            self.applicable(base_addr, old(binary)@),
        ensures
            final(binary)@ == self.relocated_binary(base_addr, old(binary)@),
    {
        proof {
            bytes::lemma_low32_of_u64(base_addr);
        }
        let value: u32 = match self.read_offset {
            RelocationRead::Base32 => base_addr as u32,
            RelocationRead::SymbolValue32(value) => base_addr as u32 + value,
            RelocationRead::Offset(read_offset) => {
                let at: usize = read_offset as usize;
                bytes::u32_from_le([binary[at], binary[at + 1], binary[at + 2], binary[at + 3]])
            },
        };
        let patch = self.patch(value);
        let at: usize = self.write_offset as usize;
        binary[at] = patch[0];
        binary[at + 1] = patch[1];
        binary[at + 2] = patch[2];
        binary[at + 3] = patch[3];
        assert(binary@ =~= self.relocated_binary(base_addr, old(binary)@));
    }

    /// The bytes to write where `value` was read.
    fn patch(&self, value: u32) -> (bytes: [u8; 4])
        requires
            self.addable(value),
        ensures
            bytes@ == bytes::le32(relocated(value, self.addend)),
    {
        let sum: i64 = value as i64 + self.addend;
        proof {
            bytes::lemma_low32_of_i64(sum);
        }
        bytes::u32_to_le(sum as u32)
    }
}

/// A relocation changes four bytes of the binary and no others.
pub proof fn relocating_changes_four_bytes(
    relocation: KernelRelocation,
    base_addr: u64,
    binary: Seq<u8>,
    i: int,
)
    requires
        relocation.applicable(base_addr, binary),
        0 <= i < binary.len(),
        !(relocation.write_offset <= i < relocation.write_offset + 4),
    ensures
        relocation.relocated_binary(base_addr, binary).len() == binary.len(),
        relocation.relocated_binary(base_addr, binary)[i] == binary[i],
{
}

/// What a relocation writes reads back, modulo 2^32, as the value plus the addend.
pub proof fn relocating_writes_the_sum(
    relocation: KernelRelocation,
    base_addr: u64,
    binary: Seq<u8>,
)
    requires
        relocation.applicable(base_addr, binary),
    ensures
        bytes::from_le32(
            relocation.relocated_binary(base_addr, binary).skip(relocation.write_offset as int),
        ) == bytes::low32(relocation.value(base_addr, binary) + relocation.addend),
{
    let written = relocated(relocation.value(base_addr, binary) as u32, relocation.addend);
    bytes::le32_reads_back(written);
    let after = relocation.relocated_binary(base_addr, binary).skip(relocation.write_offset as int);
    assert(after.take(4) =~= bytes::le32(written));
    assert(bytes::from_le32(after) == bytes::from_le32(after.take(4)));
}

/// Two relocations that write apart from each other, and do not read what the other writes, may be
/// applied in either order.
pub proof fn relocations_apart_commute(
    first: KernelRelocation,
    second: KernelRelocation,
    base_addr: u64,
    binary: Seq<u8>,
)
    requires
        first.applicable(base_addr, binary),
        second.applicable(base_addr, binary),
        apart(first.write_offset, second.write_offset),
        first.read_offset matches RelocationRead::Offset(offset) ==> apart(
            offset,
            second.write_offset,
        ),
        second.read_offset matches RelocationRead::Offset(offset) ==> apart(
            offset,
            first.write_offset,
        ),
    ensures
        second.relocated_binary(base_addr, first.relocated_binary(base_addr, binary))
            == first.relocated_binary(base_addr, second.relocated_binary(base_addr, binary)),
{
    assert(second.relocated_binary(base_addr, first.relocated_binary(base_addr, binary))
        =~= first.relocated_binary(base_addr, second.relocated_binary(base_addr, binary)));
}

/// Whether the four bytes at two offsets do not overlap.
pub open spec fn apart(a: u64, b: u64) -> bool {
    a + 4 <= b || b + 4 <= a
}

} // verus!
