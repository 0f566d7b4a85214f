//! Loading kernels onto a chip, and starting and stopping its cores.

use vstd::prelude::*;

use crate::bytes;
use crate::chip::{Chip, CommandView, NocAddress, NocId, Tile};
use crate::elf;
use crate::kernel;
use crate::kernel::{CoreData, KernelBinData, KernelBytes, KernelData};
use crate::relocate;
use crate::symbols::SymbolTable;

verus! {

/// The register that holds a Tensix core's soft resets.
pub const SOFT_RESET: u64 = 0xFFB121B0;

pub const BRISC_SOFT_RESET: u32 = 0x800;

pub const TRISC_SOFT_RESETS: u32 = 0x7000;

pub const NCRISC_SOFT_RESET: u32 = 0x4_0000;

pub const STAGGERED_START: u32 = 0x8000_0000;

/// The soft resets of all cores of a Tensix.
pub open spec fn all_resets() -> int {
    BRISC_SOFT_RESET + TRISC_SOFT_RESETS + NCRISC_SOFT_RESET
}

/// The soft resets that remain when a Tensix is started.
pub open spec fn start_resets(keep_triscs_under_reset: bool, stagger_start: bool) -> int {
    NCRISC_SOFT_RESET + (if keep_triscs_under_reset {
        TRISC_SOFT_RESETS as int
    } else {
        0
    }) + (if stagger_start {
        STAGGERED_START as int
    } else {
        0
    })
}

fn stopped() -> (value: u32)
    ensures
        value == all_resets(),
{
    assert(0x800u32 | 0x7000u32 | 0x4_0000u32 == 0x800 + 0x7000 + 0x4_0000) by (bit_vector);
    BRISC_SOFT_RESET | TRISC_SOFT_RESETS | NCRISC_SOFT_RESET
}

fn started(keep_triscs_under_reset: bool, stagger_start: bool) -> (value: u32)
    ensures
        value == start_resets(keep_triscs_under_reset, stagger_start),
{
    let staggered_start_enable: u32 = if stagger_start {
        STAGGERED_START
    } else {
        0
    };
    assert(0x4_0000u32 | 0x7000u32 | 0x8000_0000u32 == 0x4_0000 + 0x7000 + 0x8000_0000
        && 0x4_0000u32 | 0x7000u32 | 0u32 == 0x4_0000 + 0x7000 && 0x4_0000u32 | 0x8000_0000u32
        == 0x4_0000 + 0x8000_0000 && 0x4_0000u32 | 0u32 == 0x4_0000) by (bit_vector);
    if keep_triscs_under_reset {
        NCRISC_SOFT_RESET | TRISC_SOFT_RESETS | staggered_start_enable
    } else {
        NCRISC_SOFT_RESET | staggered_start_enable
    }
}

/// Puts every Tensix under soft reset, with the clocks lowered.
pub fn reset_to_default(device: &mut Chip)
    ensures
        final(device)@ == old(device)@ + seq![
            CommandView::GoIdle,
            CommandView::DeassertRiscvReset,
            CommandView::Broadcast32 {
                noc_id: NocId::Noc0,
                addr: SOFT_RESET,
                value: all_resets() as u32,
            },
        ],
{
    device.go_idle();
    device.deassert_riscv_reset();

    // Put tensix back under soft reset
    device.noc_broadcast32(NocId::Noc0, SOFT_RESET, stopped());
}

pub fn lower_clocks(device: &mut Chip)
    ensures
        final(device)@ == old(device)@.push(CommandView::GoIdle),
{
    device.go_idle();
}

pub fn raise_clocks(device: &mut Chip)
    ensures
        final(device)@ == old(device)@.push(CommandView::GoBusy),
{
    device.go_busy();
}

/// Takes the cores of every Tensix out of reset.
pub fn start_all(device: &mut Chip, keep_triscs_under_reset: bool, stagger_start: bool)
    ensures
        final(device)@ == old(device)@.push(
            CommandView::Broadcast32 {
                noc_id: NocId::Noc0,
                addr: SOFT_RESET,
                value: start_resets(keep_triscs_under_reset, stagger_start) as u32,
            },
        ),
{
    device.noc_broadcast32(
        NocId::Noc0,
        SOFT_RESET,
        started(keep_triscs_under_reset, stagger_start),
    );
}

/// Puts every Tensix under soft reset.
pub fn stop_all(device: &mut Chip)
    ensures
        final(device)@ == old(device)@ + seq![
            CommandView::GoIdle,
            CommandView::Broadcast32 {
                noc_id: NocId::Noc0,
                addr: SOFT_RESET,
                value: all_resets() as u32,
            },
        ],
{
    lower_clocks(device);
    device.noc_broadcast32(NocId::Noc0, SOFT_RESET, stopped());
}

/// The commands that set the soft resets of one Tensix and read them back.
pub open spec fn set_resets(core: NocAddress, value: int) -> Seq<CommandView> {
    seq![
        CommandView::Write32 {
            noc_id: NocId::Noc0,
            core,
            addr: SOFT_RESET,
            value: value as u32,
        },
        CommandView::Expect32 {
            noc_id: NocId::Noc0,
            core,
            addr: SOFT_RESET,
            value: value as u32,
        },
    ]
}

/// Takes the cores of one Tensix out of reset, and reads back that it happened.
pub fn start(
    device: &mut Chip,
    core: NocAddress,
    keep_triscs_under_reset: bool,
    stagger_start: bool,
)
    ensures
        final(device)@ == old(device)@ + set_resets(
            core,
            start_resets(keep_triscs_under_reset, stagger_start),
        ),
{
    let soft_reset_value: u32 = started(keep_triscs_under_reset, stagger_start);
    device.noc_write32(NocId::Noc0, core, SOFT_RESET, soft_reset_value);
    device.noc_expect32(NocId::Noc0, core, SOFT_RESET, soft_reset_value);
}

/// Starts one Tensix with the TRISCs under reset, staggered.
pub fn easy_start(device: &mut Chip, core: NocAddress)
    ensures
        final(device)@ == old(device)@ + set_resets(core, start_resets(true, true)),
{
    start(device, core, true, true);
}

/// Starts every Tensix with the TRISCs under reset, staggered.
pub fn easy_start_all(device: &mut Chip)
    ensures
        final(device)@ == old(device)@.push(
            CommandView::Broadcast32 {
                noc_id: NocId::Noc0,
                addr: SOFT_RESET,
                value: start_resets(true, true) as u32,
            },
        ),
{
    start_all(device, true, true);
}

/// Puts one Tensix under soft reset, and reads back that it happened.
pub fn stop(device: &mut Chip, core: NocAddress)
    ensures
        final(device)@ == old(device)@ + set_resets(core, all_resets()),
{
    let soft_reset_value: u32 = stopped();
    device.noc_write32(NocId::Noc0, core, SOFT_RESET, soft_reset_value);
    device.noc_expect32(NocId::Noc0, core, SOFT_RESET, soft_reset_value);
}

/// Starting a Tensix releases its BRISC, keeps its NCRISC under reset, and releases the TRISCs only
/// where they are not to be kept under reset. Stopping holds all of them.
pub proof fn starting_releases_the_brisc(keep_triscs_under_reset: bool, stagger_start: bool)
    ensures
        ({
            let started = start_resets(keep_triscs_under_reset, stagger_start) as u32;
            let stopped = all_resets() as u32;
            &&& started & BRISC_SOFT_RESET == 0
            &&& started & NCRISC_SOFT_RESET == NCRISC_SOFT_RESET
            &&& started & TRISC_SOFT_RESETS == if keep_triscs_under_reset {
                TRISC_SOFT_RESETS
            } else {
                0
            }
            &&& stopped & BRISC_SOFT_RESET == BRISC_SOFT_RESET
            &&& stopped & NCRISC_SOFT_RESET == NCRISC_SOFT_RESET
            &&& stopped & TRISC_SOFT_RESETS == TRISC_SOFT_RESETS
        }),
{
    let started = start_resets(keep_triscs_under_reset, stagger_start) as u32;
    let stopped = all_resets() as u32;
    assert(stopped == 0x4_7800);
    assert(0x4_7800u32 & 0x800 == 0x800 && 0x4_7800u32 & 0x4_0000 == 0x4_0000 && 0x4_7800u32
        & 0x7000 == 0x7000) by (bit_vector);
    assert(started & 0x800 == 0 && started & 0x4_0000 == 0x4_0000) by (bit_vector)
        requires
            started == 0x4_0000 || started == 0x4_7000 || started == 0x8004_0000 || started
                == 0x8004_7000,
    ;
    if keep_triscs_under_reset {
        assert(started & 0x7000 == 0x7000) by (bit_vector)
            requires
                started == 0x4_7000 || started == 0x8004_7000,
        ;
    } else {
        assert(started & 0x7000 == 0) by (bit_vector)
            requires
                started == 0x4_0000 || started == 0x8004_0000,
        ;
    }
}

/// The value to substitute on the right side of the relocation operation.
#[derive(Clone, Copy)]
pub enum RelocationRead {
    /// Instead of reading, substitute the loaded binary base.
    Base,
    /// Relocate based on the symbol value. The loaded base is added to it.
    SymbolValue32(u32),
    /// Offset from the loaded base to read from.
    Offset(u64),
}

/// A relocation of a self-contained kernel. All sections are loaded as a single block, so it is
/// known in advance where symbols are located relative to a global base.
pub struct KernelRelocation {
    /// The name of the symbol which is being relocated.
    pub name: Option<String>,
    /// The offset relative to the bottom of the binary where the write needs to happen.
    pub write_offset: u64,
    /// Where the value comes from.
    pub read_offset: RelocationRead,
    /// A constant value to add to the result of the read.
    pub addend: i64,
}

/// A relocation as a value.
pub struct RelocationView {
    pub name: Option<Seq<char>>,
    pub write_offset: u64,
    pub read_offset: RelocationRead,
    pub addend: i64,
}

impl View for KernelRelocation {
    type V = RelocationView;

    open spec fn view(&self) -> RelocationView {
        RelocationView {
            name: elf::name_view(self.name),
            write_offset: self.write_offset,
            read_offset: self.read_offset,
            addend: self.addend,
        }
    }
}

/// The name in a string of its own.
fn copy_name(name: &Option<String>) -> (copy: Option<String>)
    ensures
        elf::name_view(copy) == elf::name_view(*name),
{
    match name {
        Some(text) => Some(text.clone()),
        None => None,
    }
}

impl Clone for KernelRelocation {
    fn clone(&self) -> (copy: Self)
        ensures
            copy@ == self@,
    {
        KernelRelocation {
            name: copy_name(&self.name),
            write_offset: self.write_offset,
            read_offset: self.read_offset,
            addend: self.addend,
        }
    }
}

impl RelocationView {
    /// The relocation as it is applied: without the name.
    pub open spec fn applied(self) -> relocate::KernelRelocation {
        relocate::KernelRelocation {
            write_offset: self.write_offset,
            read_offset: match self.read_offset {
                RelocationRead::Base => relocate::RelocationRead::Base32,
                RelocationRead::SymbolValue32(value) => relocate::RelocationRead::SymbolValue32(
                    value,
                ),
                RelocationRead::Offset(offset) => relocate::RelocationRead::Offset(offset),
            },
            addend: self.addend,
        }
    }
}

impl KernelRelocation {
    /// The relocation as it is applied. The kernel is self-contained, so no symbol is looked up.
    pub fn to_kernel_relocation(&self) -> (relocation: relocate::KernelRelocation)
        ensures
            relocation == self@.applied(),
    {
        relocate::KernelRelocation {
            write_offset: self.write_offset,
            read_offset: match self.read_offset {
                RelocationRead::Base => relocate::RelocationRead::Base32,
                RelocationRead::SymbolValue32(value) => relocate::RelocationRead::SymbolValue32(
                    value,
                ),
                RelocationRead::Offset(offset) => relocate::RelocationRead::Offset(offset),
            },
            addend: self.addend,
        }
    }
}

/// Why a file cannot be loaded.
pub enum LoadError {
    /// The file is not an ELF file that can be read.
    Malformed,
    /// Only an entry point of zero is supported.
    NonZeroEntry(u64),
    /// A segment to load is not in the file.
    SegmentOutOfBounds,
    /// There is no handler for a relocation of this kind.
    UnsupportedRelocation(u32),
    /// A relocation refers to a symbol that is not there.
    MissingSymbol(usize),
}

/// Whether the bytes of a segment are in a file of `len` bytes.
pub open spec fn segment_in_file(segment: elf::ElfSegment, len: nat) -> bool {
    segment.kind == elf::PT_LOAD ==> segment.offset + segment.file_size <= len
}

/// The bytes to write for the segments that are loaded.
pub open spec fn segment_writes(segments: Seq<elf::ElfSegment>, file: Seq<u8>) -> Seq<
    (u32, Seq<u8>),
>
    decreases segments.len(),
{
    if segments.len() == 0 {
        seq![]
    } else {
        let rest = segment_writes(segments.drop_last(), file);
        let last = segments.last();
        if last.kind == elf::PT_LOAD {
            rest.push(
                (
                    bytes::low32(last.address as int) as u32,
                    file.subrange(last.offset as int, last.offset + last.file_size),
                ),
            )
        } else {
            rest
        }
    }
}

/// The symbol table of a file. Of two symbols with one name the later counts.
pub open spec fn named_symbols(symbols: Seq<elf::SymbolView>) -> Map<Seq<char>, u64>
    decreases symbols.len(),
{
    if symbols.len() == 0 {
        Map::empty()
    } else {
        let rest = named_symbols(symbols.drop_last());
        match symbols.last().0 {
            Some(name) => rest.insert(name, symbols.last().1),
            None => rest,
        }
    }
}

/// Whether a relocation can be handled.
pub open spec fn relocation_supported(
    relocation: elf::ElfRelocation,
    symbols: Seq<elf::SymbolView>,
) -> bool {
    ||| relocation.kind == elf::R_RISCV_RELATIVE
    ||| relocation.kind == elf::R_RISCV_32 && relocation.symbol < symbols.len()
}

/// What a relocation entry asks for. `symbols` are the dynamic symbols.
pub open spec fn relocation_of(
    relocation: elf::ElfRelocation,
    symbols: Seq<elf::SymbolView>,
) -> RelocationView {
    RelocationView {
        name: if relocation.symbol < symbols.len() {
            symbols[relocation.symbol as int].0
        } else {
            None
        },
        write_offset: relocation.offset,
        read_offset: if relocation.kind == elf::R_RISCV_RELATIVE {
            RelocationRead::Base
        } else {
            RelocationRead::SymbolValue32(
                bytes::low32(symbols[relocation.symbol as int].1 as int) as u32,
            )
        },
        addend: match relocation.addend {
            Some(addend) => addend,
            None => 0,
        },
    }
}

/// The relocations of a file, in the order in which they are processed.
pub open spec fn relocation_entries(image: elf::ElfContents) -> Seq<elf::ElfRelocation> {
    image.dynamic_rels + image.dynamic_relas + image.plt_relocations
}

pub open spec fn lookup(symbols: Map<Seq<char>, u64>, name: Seq<char>) -> Option<u64> {
    if symbols.contains_key(name) {
        Some(symbols[name])
    } else {
        None
    }
}

/// The addresses that the host knows, found by their symbols.
pub open spec fn bin_data_of(symbols: Map<Seq<char>, u64>) -> KernelBinData {
    KernelBinData {
        start_sync: lookup(symbols, "START_SYNC"@),
        brisc_state: CoreData {
            entry: lookup(symbols, "__brisc_start"@),
            state: lookup(symbols, "STATE_BRISC"@),
            postcode: lookup(symbols, "POSTCODE_BRISC"@),
            panic: lookup(symbols, "PANIC_DATA_BRISC"@),
        },
        ncrisc_state: CoreData {
            entry: lookup(symbols, "__ncrisc_start"@),
            state: lookup(symbols, "STATE_NCRISC"@),
            postcode: lookup(symbols, "POSTCODE_NCRISC"@),
            panic: lookup(symbols, "PANIC_DATA_NCRISC"@),
        },
        trisc0_state: CoreData {
            entry: lookup(symbols, "__trisc0_start"@),
            state: lookup(symbols, "STATE_TRISC0"@),
            postcode: lookup(symbols, "POSTCODE_TRISC0"@),
            panic: lookup(symbols, "PANIC_DATA_TRISC0"@),
        },
        trisc1_state: CoreData {
            entry: lookup(symbols, "__trisc1_start"@),
            state: lookup(symbols, "STATE_TRISC1"@),
            postcode: lookup(symbols, "POSTCODE_TRISC1"@),
            panic: lookup(symbols, "PANIC_DATA_TRISC1"@),
        },
        trisc2_state: CoreData {
            entry: lookup(symbols, "__trisc2_start"@),
            state: lookup(symbols, "STATE_TRISC2"@),
            postcode: lookup(symbols, "POSTCODE_TRISC2"@),
            panic: lookup(symbols, "PANIC_DATA_TRISC2"@),
        },
        data_start: lookup(symbols, "__firmware_end"@),
        unknown_panic: lookup(symbols, "PANIC_DATA_UNKNOWN"@),
        noc_debug: lookup(symbols, "NOC_DEBUG"@),
    }
}

/// The kernel that a file holds.
pub open spec fn kernel_of(image: elf::ElfContents, file: Seq<u8>) -> kernel::KernelView {
    kernel::KernelView {
        bin: bin_data_of(named_symbols(image.symbols)),
        symbols: named_symbols(image.symbols),
        writes: segment_writes(image.segments, file),
        relocations: relocation_entries(image).map_values(
            |relocation: elf::ElfRelocation| relocation_of(relocation, image.dynamic_symbols),
        ),
    }
}

/// Whether every segment to load is in the file.
pub open spec fn segments_in_file(image: elf::ElfContents, file: Seq<u8>) -> bool {
    forall|i: int|
        0 <= i < image.segments.len() ==> segment_in_file(#[trigger] image.segments[i], file.len())
}

/// Whether the entry at `i` is the first relocation that cannot be handled.
pub open spec fn first_unsupported(image: elf::ElfContents, i: int) -> bool {
    let entries = relocation_entries(image);
    &&& 0 <= i < entries.len()
    &&& !relocation_supported(entries[i], image.dynamic_symbols)
    &&& forall|j: int|
        0 <= j < i ==> relocation_supported(#[trigger] entries[j], image.dynamic_symbols)
}

/// Whether a file can be loaded.
pub open spec fn loadable(image: elf::ElfContents, file: Seq<u8>) -> bool {
    &&& image.entry == 0
    &&& segments_in_file(image, file)
    &&& forall|i: int|
        0 <= i < relocation_entries(image).len() ==> relocation_supported(
            #[trigger] relocation_entries(image)[i],
            image.dynamic_symbols,
        )
}

/// What loading a file gives: the kernel, or the first thing that stands in the way.
pub open spec fn load_result(
    image: elf::ElfContents,
    file: Seq<u8>,
    result: Result<KernelData, LoadError>,
) -> bool {
    match result {
        Ok(data) => loadable(image, file) && data@ == kernel_of(image, file),
        Err(LoadError::Malformed) => false,
        Err(LoadError::NonZeroEntry(entry)) => entry == image.entry && entry != 0,
        Err(LoadError::SegmentOutOfBounds) => image.entry == 0 && !segments_in_file(image, file),
        Err(LoadError::UnsupportedRelocation(kind)) => {
            &&& image.entry == 0
            &&& segments_in_file(image, file)
            &&& kind != elf::R_RISCV_RELATIVE && kind != elf::R_RISCV_32
            &&& exists|i: int| #[trigger]
                first_unsupported(image, i) && relocation_entries(image)[i].kind == kind
        },
        Err(LoadError::MissingSymbol(symbol)) => {
            &&& image.entry == 0
            &&& segments_in_file(image, file)
            &&& exists|i: int| #[trigger]
                first_unsupported(image, i) && relocation_entries(image)[i].symbol == symbol
                    && relocation_entries(image)[i].kind == elf::R_RISCV_32
        },
    }
}

/// The bytes to write for the segments that are loaded, or `None` where one is not in the file.
fn load_segments(segments: &Vec<elf::ElfSegment>, file: &[u8]) -> (writes: Option<Vec<KernelBytes>>)
    ensures
        match writes {
            Some(writes) => {
                &&& kernel::writes_view(writes@) == segment_writes(segments@, file@)
                &&& forall|i: int|
                    0 <= i < segments@.len() ==> segment_in_file(
                        #[trigger] segments@[i],
                        file@.len(),
                    )
            },
            None => exists|i: int|
                0 <= i < segments@.len() && !segment_in_file(#[trigger] segments@[i], file@.len()),
        },
{
    let mut writes: Vec<KernelBytes> = Vec::new();
    for i in 0..segments.len()
        invariant
            kernel::writes_view(writes@) == segment_writes(segments@.take(i as int), file@),
            forall|j: int|
                0 <= j < i ==> segment_in_file(#[trigger] segments@[j], file@.len()),
    {
        let segment = segments[i];
        assert(segments@.take(i + 1).drop_last() =~= segments@.take(i as int));
        if segment.kind == elf::PT_LOAD {
            let end: u128 = segment.offset as u128 + segment.file_size as u128;
            if end > file.len() as u128 {
                assert(!segment_in_file(segments@[i as int], file@.len()));
                return None;
            }
            let start: usize = segment.offset as usize;
            let end: usize = end as usize;
            let data = vstd::slice::slice_subrange(file, start, end);
            proof {
                bytes::lemma_low32_of_u64(segment.address);
            }
            let ghost before = writes@;
            writes.push(
                KernelBytes { addr: segment.address as u32, data: kernel::copy_bytes(data) },
            );
            assert(kernel::writes_view(writes@) =~= kernel::writes_view(before).push(
                writes@.last()@,
            ));
        }
    }
    assert(segments@.take(segments@.len() as int) =~= segments@);
    Some(writes)
}

/// The symbol table of a file.
fn load_symbols(symbols: &Vec<elf::ElfSymbol>) -> (table: SymbolTable)
    ensures
        table@ == named_symbols(elf::symbols_view(symbols@)),
{
    let mut table = SymbolTable::new();
    let ghost view = elf::symbols_view(symbols@);
    for i in 0..symbols.len()
        invariant
            view == elf::symbols_view(symbols@),
            table@ == named_symbols(view.take(i as int)),
    {
        assert(view.take(i + 1).drop_last() =~= view.take(i as int));
        if let Some(name) = &symbols[i].name {
            table.insert(name.clone(), symbols[i].value);
        }
    }
    assert(view.take(view.len() as int) =~= view);
    table
}

/// What a relocation entry asks for, or why it cannot be handled.
fn process_relocation(relocation: elf::ElfRelocation, symbols: &Vec<elf::ElfSymbol>) -> (result:
    Result<KernelRelocation, LoadError>)
    ensures
        match result {
            Ok(processed) => {
                &&& relocation_supported(relocation, elf::symbols_view(symbols@))
                &&& processed@ == relocation_of(relocation, elf::symbols_view(symbols@))
            },
            Err(LoadError::UnsupportedRelocation(kind)) => {
                &&& kind == relocation.kind
                &&& kind != elf::R_RISCV_RELATIVE && kind != elf::R_RISCV_32
            },
            Err(LoadError::MissingSymbol(symbol)) => {
                &&& symbol == relocation.symbol
                &&& relocation.kind == elf::R_RISCV_32
                &&& !relocation_supported(relocation, elf::symbols_view(symbols@))
            },
            Err(_) => false,
        },
{
    let name = if relocation.symbol < symbols.len() {
        copy_name(&symbols[relocation.symbol].name)
    } else {
        None
    };
    let addend: i64 = match relocation.addend {
        Some(addend) => addend,
        None => 0,
    };
    if relocation.kind == elf::R_RISCV_RELATIVE {
        Ok(
            KernelRelocation {
                name,
                write_offset: relocation.offset,
                read_offset: RelocationRead::Base,
                addend,
            },
        )
    } else if relocation.kind == elf::R_RISCV_32 {
        if relocation.symbol >= symbols.len() {
            return Err(LoadError::MissingSymbol(relocation.symbol));
        }
        let value: u64 = symbols[relocation.symbol].value;
        proof {
            bytes::lemma_low32_of_u64(value);
        }
        Ok(
            KernelRelocation {
                name,
                write_offset: relocation.offset,
                read_offset: RelocationRead::SymbolValue32(value as u32),
                addend,
            },
        )
    } else {
        Err(LoadError::UnsupportedRelocation(relocation.kind))
    }
}

/// The addresses that the host knows, found by their symbols.
fn load_bin_data(symbols: &SymbolTable) -> (bin: KernelBinData)
    ensures
        bin == bin_data_of(symbols@),
{
    KernelBinData {
        start_sync: symbols.get("START_SYNC"),
        brisc_state: CoreData {
            entry: symbols.get("__brisc_start"),
            state: symbols.get("STATE_BRISC"),
            postcode: symbols.get("POSTCODE_BRISC"),
            panic: symbols.get("PANIC_DATA_BRISC"),
        },
        ncrisc_state: CoreData {
            entry: symbols.get("__ncrisc_start"),
            state: symbols.get("STATE_NCRISC"),
            postcode: symbols.get("POSTCODE_NCRISC"),
            panic: symbols.get("PANIC_DATA_NCRISC"),
        },
        trisc0_state: CoreData {
            entry: symbols.get("__trisc0_start"),
            state: symbols.get("STATE_TRISC0"),
            postcode: symbols.get("POSTCODE_TRISC0"),
            panic: symbols.get("PANIC_DATA_TRISC0"),
        },
        trisc1_state: CoreData {
            entry: symbols.get("__trisc1_start"),
            state: symbols.get("STATE_TRISC1"),
            postcode: symbols.get("POSTCODE_TRISC1"),
            panic: symbols.get("PANIC_DATA_TRISC1"),
        },
        trisc2_state: CoreData {
            entry: symbols.get("__trisc2_start"),
            state: symbols.get("STATE_TRISC2"),
            postcode: symbols.get("POSTCODE_TRISC2"),
            panic: symbols.get("PANIC_DATA_TRISC2"),
        },
        data_start: symbols.get("__firmware_end"),
        unknown_panic: symbols.get("PANIC_DATA_UNKNOWN"),
        noc_debug: symbols.get("NOC_DEBUG"),
    }
}

/// The kernel in a file whose ELF structure is `image`.
pub fn load_image(image: &elf::ElfImage, file: &[u8]) -> (result: Result<KernelData, LoadError>)
    ensures
        load_result(image@, file@, result),
{
    if image.entry != 0 {
        return Err(LoadError::NonZeroEntry(image.entry));
    }
    let writes = match load_segments(&image.segments, file) {
        Some(writes) => writes,
        None => {
            return Err(LoadError::SegmentOutOfBounds);
        },
    };
    let sym_table = load_symbols(&image.symbols);

    let mut entries: Vec<elf::ElfRelocation> = Vec::new();
    entries.extend_from_slice(image.dynamic_rels.as_slice());
    entries.extend_from_slice(image.dynamic_relas.as_slice());
    entries.extend_from_slice(image.plt_relocations.as_slice());
    assert(entries@ =~= relocation_entries(image@));

    let mut relocations: Vec<KernelRelocation> = Vec::new();
    for i in 0..entries.len()
        invariant
            image.entry == 0,
            segments_in_file(image@, file@),
            entries@ == relocation_entries(image@),
            relocations@.len() == i,
            forall|j: int|
                0 <= j < i ==> {
                    &&& relocation_supported(
                        #[trigger] relocation_entries(image@)[j],
                        image@.dynamic_symbols,
                    )
                    &&& relocations@[j]@ == relocation_of(
                        relocation_entries(image@)[j],
                        image@.dynamic_symbols,
                    )
                },
    {
        match process_relocation(entries[i], &image.dynamic_symbols) {
            Ok(relocation) => relocations.push(relocation),
            Err(error) => {
                assert(first_unsupported(image@, i as int));
                return Err(error);
            },
        }
    }
    let bin = load_bin_data(&sym_table);
    let data = KernelData { bin, sym_table, writes, relocations };
    assert(data@ =~= kernel_of(image@, file@));
    Ok(data)
}

/// The kernel in an ELF file.
pub fn load_elf(file: &[u8]) -> (result: Result<KernelData, LoadError>)
    ensures
        match elf::elf_contents(file@) {
            Some(image) => load_result(image, file@, result),
            None => result matches Err(LoadError::Malformed),
        },
{
    match elf::parse_elf(file) {
        Some(image) => load_image(&image, file),
        None => Err(LoadError::Malformed),
    }
}

/// The commands that load a kernel into every Tensix.
pub open spec fn broadcast_writes(writes: Seq<(u32, Seq<u8>)>) -> Seq<CommandView> {
    writes.map_values(
        |write: (u32, Seq<u8>)|
            CommandView::Broadcast { noc_id: NocId::Noc0, addr: write.0 as u64, data: write.1 },
    )
}

/// The commands that load a kernel into one Tensix.
pub open spec fn core_writes(
    noc_id: NocId,
    core: Tile,
    writes: Seq<(u32, Seq<u8>)>,
) -> Seq<CommandView> {
    writes.map_values(
        |write: (u32, Seq<u8>)|
            CommandView::Write { noc_id, core: core.addr, addr: write.0 as u64, data: write.1 },
    )
}

/// The commands that load a kernel into a list of Tensixes, one after the other.
pub open spec fn cores_writes(cores: Seq<Tile>, writes: Seq<(u32, Seq<u8>)>) -> Seq<CommandView>
    decreases cores.len(),
{
    if cores.len() == 0 {
        seq![]
    } else {
        cores_writes(cores.drop_last(), writes) + core_writes(NocId::Noc0, cores.last(), writes)
    }
}

/// What loading a file asks of a chip: nothing where the file cannot be loaded, else `commands` of
/// the kernel's writes.
pub open spec fn asked(
    result: Result<KernelData, LoadError>,
    commands: spec_fn(Seq<(u32, Seq<u8>)>) -> Seq<CommandView>,
) -> Seq<CommandView> {
    match result {
        Ok(data) => commands(data@.writes),
        Err(_) => seq![],
    }
}

/// Loads the kernel in an ELF file into every Tensix.
pub fn load_to_all(device: &mut Chip, file: &[u8]) -> (result: Result<KernelData, LoadError>)
    ensures
        match elf::elf_contents(file@) {
            Some(image) => load_result(image, file@, result),
            None => result matches Err(LoadError::Malformed),
        },
        final(device)@ == old(device)@ + asked(
            result,
            |writes: Seq<(u32, Seq<u8>)>| broadcast_writes(writes),
        ),
{
    let data = match load_elf(file) {
        Ok(data) => data,
        Err(error) => {
            assert(device@ =~= old(device)@ + seq![]);
            return Err(error);
        },
    };
    let ghost writes = data@.writes;
    for i in 0..data.writes.len()
        invariant
            writes == data@.writes,
            device@ == old(device)@ + broadcast_writes(writes.take(i as int)),
    {
        let write = &data.writes[i];
        device.noc_broadcast(NocId::Noc0, write.addr as u64, write.data.as_slice());
        assert(writes.take(i + 1) =~= writes.take(i as int).push(write@));
        assert(device@ =~= old(device)@ + broadcast_writes(writes.take(i + 1)));
    }
    assert(writes.take(writes.len() as int) =~= writes);
    Ok(data)
}

impl KernelData {
    /// Writes the kernel into one Tensix.
    pub fn load(&self, device: &mut Chip, noc_id: NocId, core: Tile)
        ensures
            final(device)@ == old(device)@ + core_writes(noc_id, core, self@.writes),
    {
        let ghost writes = self@.writes;
        for i in 0..self.writes.len()
            invariant
                writes == self@.writes,
                device@ == old(device)@ + core_writes(noc_id, core, writes.take(i as int)),
        {
            let write = &self.writes[i];
            device.noc_write(noc_id, core.addr, write.addr as u64, write.data.as_slice());
            assert(writes.take(i + 1) =~= writes.take(i as int).push(write@));
            assert(device@ =~= old(device)@ + core_writes(noc_id, core, writes.take(i + 1)));
        }
        assert(writes.take(writes.len() as int) =~= writes);
    }
}

/// Loads the kernel in an ELF file into some Tensixes.
pub fn load_to_cores(device: &mut Chip, cores: &[Tile], file: &[u8]) -> (result: Result<
    KernelData,
    LoadError,
>)
    ensures
        match elf::elf_contents(file@) {
            Some(image) => load_result(image, file@, result),
            None => result matches Err(LoadError::Malformed),
        },
        final(device)@ == old(device)@ + asked(
            result,
            |writes: Seq<(u32, Seq<u8>)>| cores_writes(cores@, writes),
        ),
{
    let data = match load_elf(file) {
        Ok(data) => data,
        Err(error) => {
            assert(device@ =~= old(device)@ + seq![]);
            return Err(error);
        },
    };
    for i in 0..cores.len()
        invariant
            device@ == old(device)@ + cores_writes(cores@.take(i as int), data@.writes),
    {
        data.load(device, NocId::Noc0, cores[i]);
        assert(cores@.take(i + 1).drop_last() =~= cores@.take(i as int));
        assert(device@ =~= old(device)@ + cores_writes(cores@.take(i + 1), data@.writes));
    }
    assert(cores@.take(cores@.len() as int) =~= cores@);
    Ok(data)
}

/// Loads the kernel in an ELF file into one Tensix.
pub fn load_to_core(device: &mut Chip, core: Tile, file: &[u8]) -> (result: Result<
    KernelData,
    LoadError,
>)
    ensures
        match elf::elf_contents(file@) {
            Some(image) => load_result(image, file@, result),
            None => result matches Err(LoadError::Malformed),
        },
        final(device)@ == old(device)@ + asked(
            result,
            |writes: Seq<(u32, Seq<u8>)>| core_writes(NocId::Noc0, core, writes),
        ),
{
    let cores: [Tile; 1] = [core];
    let result = load_to_cores(device, cores.as_slice(), file);
    proof {
        assert forall|writes: Seq<(u32, Seq<u8>)>|
            cores_writes(cores@, writes) == #[trigger] core_writes(NocId::Noc0, core, writes) by {
            assert(cores@.drop_last() =~= seq![]);
            assert(cores_writes(cores@.drop_last(), writes) =~= seq![]);
            assert(cores_writes(cores@, writes) =~= core_writes(NocId::Noc0, core, writes));
        }
    }
    result
}

/// A file gives a kernel exactly if its entry point is zero, its segments are in it and its
/// relocations can be handled.
pub proof fn a_file_loads_exactly_if_loadable(
    image: elf::ElfContents,
    file: Seq<u8>,
    result: Result<KernelData, LoadError>,
)
    requires
        load_result(image, file, result),
    ensures
        result is Ok <==> loadable(image, file),
{
    if loadable(image, file) {
        assert forall|i: int| !first_unsupported(image, i) by {
            if 0 <= i < relocation_entries(image).len() {
                assert(relocation_supported(relocation_entries(image)[i], image.dynamic_symbols));
            }
        }
    }
}

/// Of the symbols with one name, the last in the file gives the value.
pub proof fn the_last_symbol_of_a_name_counts(
    symbols: Seq<elf::SymbolView>,
    name: Seq<char>,
    i: int,
)
    requires
        0 <= i < symbols.len(),
        symbols[i].0 == Some(name),
        forall|j: int| i < j < symbols.len() ==> (#[trigger] symbols[j]).0 != Some(name),
    ensures
        named_symbols(symbols).contains_key(name),
        named_symbols(symbols)[name] == symbols[i].1,
    decreases symbols.len(),
{
    if i < symbols.len() - 1 {
        assert(symbols[symbols.len() - 1].0 != Some(name));
        the_last_symbol_of_a_name_counts(symbols.drop_last(), name, i);
    }
}

/// A name that no symbol has is not in the symbol table.
pub proof fn only_symbols_of_the_file_are_listed(symbols: Seq<elf::SymbolView>, name: Seq<char>)
    requires
        named_symbols(symbols).contains_key(name),
    ensures
        exists|i: int| 0 <= i < symbols.len() && (#[trigger] symbols[i]).0 == Some(name),
    decreases symbols.len(),
{
    if symbols.len() > 0 {
        if symbols.last().0 == Some(name) {
            assert(symbols[symbols.len() - 1].0 == Some(name));
        } else {
            only_symbols_of_the_file_are_listed(symbols.drop_last(), name);
            let i = choose|i: int|
                0 <= i < symbols.len() - 1 && (#[trigger] symbols.drop_last()[i]).0 == Some(name);
            assert(symbols[i].0 == Some(name));
        }
    }
}

} // verus!
