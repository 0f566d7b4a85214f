//! A kernel: the bytes to load, its symbols and the relocations it needs.

use vstd::prelude::*;

use crate::loader;
use crate::symbols::SymbolTable;

verus! {

/// The addresses by which one core of a Tensix is observed.
#[derive(Clone, Copy)]
pub struct CoreData {
    pub entry: Option<u64>,
    pub state: Option<u64>,
    pub postcode: Option<u64>,
    pub panic: Option<u64>,
}

/// The addresses that the host knows in a kernel, as far as the kernel defines them.
#[derive(Clone, Copy)]
pub struct KernelBinData {
    pub start_sync: Option<u64>,
    pub brisc_state: CoreData,
    pub ncrisc_state: CoreData,
    pub trisc0_state: CoreData,
    pub trisc1_state: CoreData,
    pub trisc2_state: CoreData,
    pub data_start: Option<u64>,
    pub unknown_panic: Option<u64>,
    pub noc_debug: Option<u64>,
}

/// Bytes to write before a kernel starts.
pub struct KernelBytes {
    pub addr: u32,
    pub data: Vec<u8>,
}

impl View for KernelBytes {
    type V = (u32, Seq<u8>);

    open spec fn view(&self) -> (u32, Seq<u8>) {
        (self.addr, self.data@)
    }
}

/// A kernel that is ready to be loaded.
pub struct KernelData {
    pub bin: KernelBinData,
    pub sym_table: SymbolTable,
    pub writes: Vec<KernelBytes>,
    pub relocations: Vec<loader::KernelRelocation>,
}

/// A kernel as a value.
#[verifier::ext_equal]
pub struct KernelView {
    pub bin: KernelBinData,
    pub symbols: Map<Seq<char>, u64>,
    pub writes: Seq<(u32, Seq<u8>)>,
    pub relocations: Seq<loader::RelocationView>,
}

pub open spec fn writes_view(writes: Seq<KernelBytes>) -> Seq<(u32, Seq<u8>)> {
    Seq::new(writes.len(), |i: int| writes[i]@)
}

pub open spec fn relocations_view(relocations: Seq<loader::KernelRelocation>) -> Seq<
    loader::RelocationView,
> {
    Seq::new(relocations.len(), |i: int| relocations[i]@)
}

impl View for KernelData {
    type V = KernelView;

    open spec fn view(&self) -> KernelView {
        KernelView {
            bin: self.bin,
            symbols: self.sym_table@,
            writes: writes_view(self.writes@),
            relocations: relocations_view(self.relocations@),
        }
    }
}

impl Clone for KernelBytes {
    fn clone(&self) -> (copy: Self)
        ensures
            copy@ == self@,
    {
        KernelBytes { addr: self.addr, data: copy_bytes(self.data.as_slice()) }
    }
}

/// The bytes of `data` in a vector of their own.
pub(crate) fn copy_bytes(data: &[u8]) -> (copy: Vec<u8>)
    ensures
        copy@ == data@,
{
    let mut copy: Vec<u8> = Vec::new();
    copy.extend_from_slice(data);
    assert(copy@ =~= data@);
    copy
}

/// The relocations in a vector of their own.
pub(crate) fn copy_relocations(relocations: &Vec<loader::KernelRelocation>) -> (copy: Vec<
    loader::KernelRelocation,
>)
    ensures
        relocations_view(copy@) == relocations_view(relocations@),
{
    let mut copy: Vec<loader::KernelRelocation> = Vec::new();
    for i in 0..relocations.len()
        invariant
            copy@.len() == i,
            forall|j: int| 0 <= j < i ==> (#[trigger] copy@[j])@ == relocations@[j]@,
    {
        copy.push(relocations[i].clone());
    }
    assert(relocations_view(copy@) =~= relocations_view(relocations@));
    copy
}

impl Clone for KernelData {
    fn clone(&self) -> (copy: Self)
        ensures
            copy@ == self@,
    {
        let mut writes: Vec<KernelBytes> = Vec::new();
        for i in 0..self.writes.len()
            invariant
                writes@.len() == i,
                forall|j: int| 0 <= j < i ==> (#[trigger] writes@[j])@ == self.writes@[j]@,
        {
            writes.push(self.writes[i].clone());
        }
        assert(writes_view(writes@) =~= writes_view(self.writes@));
        KernelData {
            bin: self.bin,
            sym_table: self.sym_table.clone(),
            writes,
            relocations: copy_relocations(&self.relocations),
        }
    }
}

} // verus!
