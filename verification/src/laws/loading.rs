//! Loading a kernel from a file.

use vstd::prelude::*;

use crate::chip::{CommandView, NocAddress, NocId, Tile};
use crate::elf;
use crate::kernel::{CoreData, KernelBinData, KernelData};
use crate::laws::Riscv;
use crate::loader;

verus! {

/// What a kernel tells of one of its cores.
pub open spec fn core_of(bin: KernelBinData, core: Riscv) -> CoreData {
    match core {
        Riscv::Brisc => bin.brisc_state,
        Riscv::Ncrisc => bin.ncrisc_state,
        Riscv::Trisc0 => bin.trisc0_state,
        Riscv::Trisc1 => bin.trisc1_state,
        Riscv::Trisc2 => bin.trisc2_state,
    }
}

/// Whether an address is the value of the last symbol of a name, or is not known where there is no
/// such symbol.
pub open spec fn is_address(
    address: Option<u64>,
    symbols: Seq<elf::SymbolView>,
    name: Seq<char>,
) -> bool {
    match address {
        Some(value) => exists|i: int| #[trigger] is_last_symbol(symbols, name, i) && symbols[i].1 == value,
        None => forall|i: int| 0 <= i < symbols.len() ==> (#[trigger] symbols[i]).0 != Some(name),
    }
}

/// Whether the symbol at `i` is the last of a name.
pub open spec fn is_last_symbol(symbols: Seq<elf::SymbolView>, name: Seq<char>, i: int) -> bool {
    &&& 0 <= i < symbols.len()
    &&& symbols[i].0 == Some(name)
    &&& forall|j: int| i < j < symbols.len() ==> (#[trigger] symbols[j]).0 != Some(name)
}

/// A name that occurs has a last symbol.
proof fn lemma_last_symbol(symbols: Seq<elf::SymbolView>, name: Seq<char>, i: int) -> (last: int)
    requires
        0 <= i < symbols.len(),
        symbols[i].0 == Some(name),
    ensures
        is_last_symbol(symbols, name, last),
    decreases symbols.len() - i,
{
    if exists|j: int| i < j < symbols.len() && (#[trigger] symbols[j]).0 == Some(name) {
        let j = choose|j: int| i < j < symbols.len() && (#[trigger] symbols[j]).0 == Some(name);
        lemma_last_symbol(symbols, name, j)
    } else {
        i
    }
}

/// What the symbol table gives for a name is the value of the last symbol of that name.
proof fn lemma_lookup(symbols: Seq<elf::SymbolView>, name: Seq<char>)
    ensures
        is_address(loader::lookup(loader::named_symbols(symbols), name), symbols, name),
{
    let table = loader::named_symbols(symbols);
    if table.contains_key(name) {
        loader::only_symbols_of_the_file_are_listed(symbols, name);
        let i = choose|i: int| 0 <= i < symbols.len() && (#[trigger] symbols[i]).0 == Some(name);
        let last = lemma_last_symbol(symbols, name, i);
        loader::the_last_symbol_of_a_name_counts(symbols, name, last);
        assert(is_last_symbol(symbols, name, last) && symbols[last].1 == table[name]);
    } else {
        assert forall|i: int| 0 <= i < symbols.len() implies (#[trigger] symbols[i]).0 != Some(
            name,
        ) by {
            if symbols[i].0 == Some(name) {
                let last = lemma_last_symbol(symbols, name, i);
                loader::the_last_symbol_of_a_name_counts(symbols, name, last);
            }
        }
    }
}

/// Each core of a loaded kernel is observed at the addresses of the symbols that bear its own name.
pub proof fn a_core_is_observed_at_its_own_symbols(
    image: elf::ElfContents,
    file: Seq<u8>,
    data: KernelData,
    core: Riscv,
)
    requires
        loader::load_result(image, file, Ok(data)),
    ensures
        is_address(
            core_of(data.bin, core).entry,
            image.symbols,
            "__"@ + core.lower() + "_start"@,
        ),
        is_address(core_of(data.bin, core).state, image.symbols, "STATE_"@ + core.upper()),
        is_address(core_of(data.bin, core).postcode, image.symbols, "POSTCODE_"@ + core.upper()),
        is_address(core_of(data.bin, core).panic, image.symbols, "PANIC_DATA_"@ + core.upper()),
{
    assert(data@.bin == data.bin);
    let entry = "__"@ + core.lower() + "_start"@;
    let state = "STATE_"@ + core.upper();
    let postcode = "POSTCODE_"@ + core.upper();
    let panic = "PANIC_DATA_"@ + core.upper();
    lemma_core_names(core);
    lemma_lookup(image.symbols, entry);
    lemma_lookup(image.symbols, state);
    lemma_lookup(image.symbols, postcode);
    lemma_lookup(image.symbols, panic);
}

/// The names of a core's symbols, spelled out.
proof fn lemma_core_names(core: Riscv)
    ensures
        "__"@ + core.lower() + "_start"@ == match core {
            Riscv::Brisc => "__brisc_start"@,
            Riscv::Ncrisc => "__ncrisc_start"@,
            Riscv::Trisc0 => "__trisc0_start"@,
            Riscv::Trisc1 => "__trisc1_start"@,
            Riscv::Trisc2 => "__trisc2_start"@,
        },
        "STATE_"@ + core.upper() == match core {
            Riscv::Brisc => "STATE_BRISC"@,
            Riscv::Ncrisc => "STATE_NCRISC"@,
            Riscv::Trisc0 => "STATE_TRISC0"@,
            Riscv::Trisc1 => "STATE_TRISC1"@,
            Riscv::Trisc2 => "STATE_TRISC2"@,
        },
        "POSTCODE_"@ + core.upper() == match core {
            Riscv::Brisc => "POSTCODE_BRISC"@,
            Riscv::Ncrisc => "POSTCODE_NCRISC"@,
            Riscv::Trisc0 => "POSTCODE_TRISC0"@,
            Riscv::Trisc1 => "POSTCODE_TRISC1"@,
            Riscv::Trisc2 => "POSTCODE_TRISC2"@,
        },
        "PANIC_DATA_"@ + core.upper() == match core {
            Riscv::Brisc => "PANIC_DATA_BRISC"@,
            Riscv::Ncrisc => "PANIC_DATA_NCRISC"@,
            Riscv::Trisc0 => "PANIC_DATA_TRISC0"@,
            Riscv::Trisc1 => "PANIC_DATA_TRISC1"@,
            Riscv::Trisc2 => "PANIC_DATA_TRISC2"@,
        },
{
    reveal_strlit("__");
    reveal_strlit("_start");
    reveal_strlit("STATE_");
    reveal_strlit("POSTCODE_");
    reveal_strlit("PANIC_DATA_");
    match core {
        Riscv::Brisc => {
            reveal_strlit("brisc");
            reveal_strlit("BRISC");
            reveal_strlit("__brisc_start");
            reveal_strlit("STATE_BRISC");
            reveal_strlit("POSTCODE_BRISC");
            reveal_strlit("PANIC_DATA_BRISC");
            assert("__"@ + core.lower() + "_start"@ =~= "__brisc_start"@);
            assert("STATE_"@ + core.upper() =~= "STATE_BRISC"@);
            assert("POSTCODE_"@ + core.upper() =~= "POSTCODE_BRISC"@);
            assert("PANIC_DATA_"@ + core.upper() =~= "PANIC_DATA_BRISC"@);
        },
        Riscv::Ncrisc => {
            reveal_strlit("ncrisc");
            reveal_strlit("NCRISC");
            reveal_strlit("__ncrisc_start");
            reveal_strlit("STATE_NCRISC");
            reveal_strlit("POSTCODE_NCRISC");
            reveal_strlit("PANIC_DATA_NCRISC");
            assert("__"@ + core.lower() + "_start"@ =~= "__ncrisc_start"@);
            assert("STATE_"@ + core.upper() =~= "STATE_NCRISC"@);
            assert("POSTCODE_"@ + core.upper() =~= "POSTCODE_NCRISC"@);
            assert("PANIC_DATA_"@ + core.upper() =~= "PANIC_DATA_NCRISC"@);
        },
        Riscv::Trisc0 => {
            reveal_strlit("trisc0");
            reveal_strlit("TRISC0");
            reveal_strlit("__trisc0_start");
            reveal_strlit("STATE_TRISC0");
            reveal_strlit("POSTCODE_TRISC0");
            reveal_strlit("PANIC_DATA_TRISC0");
            assert("__"@ + core.lower() + "_start"@ =~= "__trisc0_start"@);
            assert("STATE_"@ + core.upper() =~= "STATE_TRISC0"@);
            assert("POSTCODE_"@ + core.upper() =~= "POSTCODE_TRISC0"@);
            assert("PANIC_DATA_"@ + core.upper() =~= "PANIC_DATA_TRISC0"@);
        },
        Riscv::Trisc1 => {
            reveal_strlit("trisc1");
            reveal_strlit("TRISC1");
            reveal_strlit("__trisc1_start");
            reveal_strlit("STATE_TRISC1");
            reveal_strlit("POSTCODE_TRISC1");
            reveal_strlit("PANIC_DATA_TRISC1");
            assert("__"@ + core.lower() + "_start"@ =~= "__trisc1_start"@);
            assert("STATE_"@ + core.upper() =~= "STATE_TRISC1"@);
            assert("POSTCODE_"@ + core.upper() =~= "POSTCODE_TRISC1"@);
            assert("PANIC_DATA_"@ + core.upper() =~= "PANIC_DATA_TRISC1"@);
        },
        Riscv::Trisc2 => {
            reveal_strlit("trisc2");
            reveal_strlit("TRISC2");
            reveal_strlit("__trisc2_start");
            reveal_strlit("STATE_TRISC2");
            reveal_strlit("POSTCODE_TRISC2");
            reveal_strlit("PANIC_DATA_TRISC2");
            assert("__"@ + core.lower() + "_start"@ =~= "__trisc2_start"@);
            assert("STATE_"@ + core.upper() =~= "STATE_TRISC2"@);
            assert("POSTCODE_"@ + core.upper() =~= "POSTCODE_TRISC2"@);
            assert("PANIC_DATA_"@ + core.upper() =~= "PANIC_DATA_TRISC2"@);
        },
    }
}

/// The addresses that belong to no core are those of their symbols, too.
pub proof fn a_kernel_is_observed_at_its_symbols(
    image: elf::ElfContents,
    file: Seq<u8>,
    data: KernelData,
)
    requires
        loader::load_result(image, file, Ok(data)),
    ensures
        is_address(data.bin.start_sync, image.symbols, "START_SYNC"@),
        is_address(data.bin.data_start, image.symbols, "__firmware_end"@),
        is_address(data.bin.unknown_panic, image.symbols, "PANIC_DATA_UNKNOWN"@),
        is_address(data.bin.noc_debug, image.symbols, "NOC_DEBUG"@),
{
    assert(data@.bin == data.bin);
    lemma_lookup(image.symbols, "START_SYNC"@);
    lemma_lookup(image.symbols, "__firmware_end"@);
    lemma_lookup(image.symbols, "PANIC_DATA_UNKNOWN"@);
    lemma_lookup(image.symbols, "NOC_DEBUG"@);
}

/// Every symbol of a loaded kernel has the value of the last symbol of its name in the file.
pub proof fn symbols_have_the_values_of_the_file(
    image: elf::ElfContents,
    file: Seq<u8>,
    data: KernelData,
    name: Seq<char>,
)
    requires
        loader::load_result(image, file, Ok(data)),
    ensures
        is_address(loader::lookup(data.sym_table@, name), image.symbols, name),
{
    assert(data@.symbols == data.sym_table@);
    lemma_lookup(image.symbols, name);
}

/// How many of the first `count` segments are loaded.
pub open spec fn loads(segments: Seq<elf::ElfSegment>, count: int) -> int
    decreases count,
{
    if count <= 0 {
        0
    } else {
        loads(segments, count - 1) + if segments[count - 1].kind == elf::PT_LOAD {
            1int
        } else {
            0
        }
    }
}

proof fn lemma_segment_writes(segments: Seq<elf::ElfSegment>, file: Seq<u8>, count: int)
    requires
        0 <= count <= segments.len(),
    ensures
        ({
            let writes = loader::segment_writes(segments.take(count), file);
            &&& writes.len() == loads(segments, count)
            &&& forall|i: int|
                0 <= i < count && (#[trigger] segments[i]).kind == elf::PT_LOAD ==> {
                    &&& 0 <= loads(segments, i) < writes.len()
                    &&& writes[loads(segments, i)].0 == segments[i].address % 0x1_0000_0000
                    &&& writes[loads(segments, i)].1 == file.subrange(
                        segments[i].offset as int,
                        segments[i].offset + segments[i].file_size,
                    )
                }
        }),
    decreases count,
{
    if count > 0 {
        lemma_segment_writes(segments, file, count - 1);
        assert(segments.take(count).drop_last() =~= segments.take(count - 1));
        assert(segments.take(count).last() == segments[count - 1]);
        let before = loader::segment_writes(segments.take(count - 1), file);
        let writes = loader::segment_writes(segments.take(count), file);
        lemma_loads_is_counted(segments, count - 1);
        assert forall|i: int|
            0 <= i < count && (#[trigger] segments[i]).kind == elf::PT_LOAD implies {
            &&& 0 <= loads(segments, i) < writes.len()
            &&& writes[loads(segments, i)].0 == segments[i].address % 0x1_0000_0000
            &&& writes[loads(segments, i)].1 == file.subrange(
                segments[i].offset as int,
                segments[i].offset + segments[i].file_size,
            )
        } by {
            if i < count - 1 {
                assert(writes[loads(segments, i)] == before[loads(segments, i)]);
            }
        }
    }
}

proof fn lemma_loads_is_counted(segments: Seq<elf::ElfSegment>, count: int)
    ensures
        0 <= loads(segments, count),
    decreases count,
{
    if count > 0 {
        lemma_loads_is_counted(segments, count - 1);
    }
}

/// Every segment that is to be loaded is written to its address, with its bytes from the file, in the
/// order of the file, and nothing else is written.
pub proof fn every_segment_is_written_to_its_address(
    image: elf::ElfContents,
    file: Seq<u8>,
    data: KernelData,
    i: int,
)
    requires
        loader::load_result(image, file, Ok(data)),
        0 <= i < image.segments.len(),
        image.segments[i].kind == elf::PT_LOAD,
    ensures
        data.writes@.len() == loads(image.segments, image.segments.len() as int),
        0 <= loads(image.segments, i) < data.writes@.len(),
        ({
            let write = data.writes@[loads(image.segments, i)];
            let segment = image.segments[i];
            &&& write.addr == segment.address % 0x1_0000_0000
            &&& write.data@ == file.subrange(
                segment.offset as int,
                segment.offset + segment.file_size,
            )
        }),
{
    let all = image.segments.len() as int;
    assert(image.segments.take(all) =~= image.segments);
    lemma_segment_writes(image.segments, file, all);
    assert(data@.writes.len() == data.writes@.len());
    assert(data@.writes[loads(image.segments, i)] == data.writes@[loads(image.segments, i)]@);
}

/// Every relocation entry of a file becomes a relocation of the kernel: those without addends first,
/// then those with, then those of the procedure linkage table. It writes where the entry says, adds
/// what the entry says, and reads the base or the value of the entry's symbol.
pub proof fn every_relocation_entry_is_kept(
    image: elf::ElfContents,
    file: Seq<u8>,
    data: KernelData,
    i: int,
)
    requires
        loader::load_result(image, file, Ok(data)),
        0 <= i < data.relocations@.len(),
    ensures
        data.relocations@.len() == image.dynamic_rels.len() + image.dynamic_relas.len()
            + image.plt_relocations.len(),
        ({
            let rels = image.dynamic_rels.len() as int;
            let relas = image.dynamic_relas.len() as int;
            let entry = if i < rels {
                image.dynamic_rels[i]
            } else if i < rels + relas {
                image.dynamic_relas[i - rels]
            } else {
                image.plt_relocations[i - rels - relas]
            };
            let relocation = data.relocations@[i];
            &&& relocation.write_offset == entry.offset
            &&& entry.addend is Some ==> relocation.addend == entry.addend->0
            &&& entry.addend is None ==> relocation.addend == 0
            &&& entry.kind == elf::R_RISCV_RELATIVE ==> relocation.read_offset is Base
            &&& entry.kind == elf::R_RISCV_32 && entry.kind != elf::R_RISCV_RELATIVE ==> {
                &&& entry.symbol < image.dynamic_symbols.len()
                &&& relocation.read_offset is SymbolValue32
                &&& relocation.read_offset->SymbolValue32_0
                    == image.dynamic_symbols[entry.symbol as int].1 % 0x1_0000_0000
            }
            &&& entry.kind == elf::R_RISCV_RELATIVE || entry.kind == elf::R_RISCV_32
            &&& entry.symbol < image.dynamic_symbols.len() ==> elf::name_view(relocation.name)
                == image.dynamic_symbols[entry.symbol as int].0
        }),
{
    let entries = loader::relocation_entries(image);
    assert(data@.relocations.len() == data.relocations@.len());
    assert(data@.relocations[i] == data.relocations@[i]@);
    assert(loader::relocation_supported(entries[i], image.dynamic_symbols));
}

/// Loading a kernel into several Tensixes writes all of it into each of them, one after the other.
pub proof fn every_core_gets_the_whole_kernel(
    cores: Seq<Tile>,
    writes: Seq<(u32, Seq<u8>)>,
    c: int,
    w: int,
)
    requires
        0 <= c < cores.len(),
        0 <= w < writes.len(),
    ensures
        loader::cores_writes(cores, writes).len() == cores.len() * writes.len(),
        0 <= c * writes.len() + w < cores.len() * writes.len(),
        loader::cores_writes(cores, writes)[c * writes.len() + w] == (CommandView::Write {
            noc_id: NocId::Noc0,
            core: cores[c].addr,
            addr: writes[w].0 as u64,
            data: writes[w].1,
        }),
    decreases cores.len(),
{
    let n = writes.len() as int;
    lemma_cores_writes_len(cores, writes);
    assert(0 <= c * n + w < cores.len() * n) by (nonlinear_arith)
        requires
            0 <= c < cores.len(),
            0 <= w < n,
    ;
    let before = cores.drop_last();
    lemma_cores_writes_len(before, writes);
    assert(cores.len() * n == before.len() * n + n) by (nonlinear_arith)
        requires
            cores.len() == before.len() + 1,
    ;
    if c < before.len() {
        every_core_gets_the_whole_kernel(before, writes, c, w);
    } else {
        assert(c == before.len());
    }
}

proof fn lemma_cores_writes_len(cores: Seq<Tile>, writes: Seq<(u32, Seq<u8>)>)
    ensures
        loader::cores_writes(cores, writes).len() == cores.len() * writes.len(),
    decreases cores.len(),
{
    let n = writes.len() as int;
    if cores.len() > 0 {
        lemma_cores_writes_len(cores.drop_last(), writes);
        assert(cores.len() * n == cores.drop_last().len() * n + n) by (nonlinear_arith)
            requires
                cores.len() == cores.drop_last().len() + 1,
        ;
    } else {
        assert(cores.len() * n == 0) by (nonlinear_arith)
            requires
                cores.len() == 0,
        ;
    }
}

/// Loading a kernel into one Tensix, or into all, writes every part of it to its address, in order.
pub proof fn every_part_is_written_to_its_address(
    noc_id: NocId,
    core: Tile,
    writes: Seq<(u32, Seq<u8>)>,
    w: int,
)
    requires
        0 <= w < writes.len(),
    ensures
        loader::core_writes(noc_id, core, writes).len() == writes.len(),
        loader::core_writes(noc_id, core, writes)[w] == (CommandView::Write {
            noc_id,
            core: core.addr,
            addr: writes[w].0 as u64,
            data: writes[w].1,
        }),
        loader::broadcast_writes(writes).len() == writes.len(),
        loader::broadcast_writes(writes)[w] == (CommandView::Broadcast {
            noc_id: NocId::Noc0,
            addr: writes[w].0 as u64,
            data: writes[w].1,
        }),
{
}

/// Whether all bytes of every segment that is loaded are in the file.
pub open spec fn holds_its_segments(image: elf::ElfContents, file: Seq<u8>) -> bool {
    forall|i: int|
        0 <= i < image.segments.len() && (#[trigger] image.segments[i]).kind == 1
            ==> image.segments[i].offset + image.segments[i].file_size <= file.len()
}

/// Whether a relocation is one of the two kinds that are handled: a relative one, or one of a dynamic
/// symbol that is there.
pub open spec fn is_handled(relocation: elf::ElfRelocation, image: elf::ElfContents) -> bool {
    ||| relocation.kind == 3
    ||| relocation.kind == 1 && relocation.symbol < image.dynamic_symbols.len()
}

/// Whether a list of relocations holds only such that are handled.
pub open spec fn are_handled(
    relocations: Seq<elf::ElfRelocation>,
    image: elf::ElfContents,
) -> bool {
    forall|i: int|
        0 <= i < relocations.len() ==> is_handled(#[trigger] relocations[i], image)
}

/// A file is loaded exactly where its entry point is zero, it holds its segments, and every
/// relocation in its three lists is handled. Else the first of these that fails is the reason, and it
/// is named.
pub proof fn every_refusal_has_its_reason(
    image: elf::ElfContents,
    file: Seq<u8>,
    result: Result<KernelData, loader::LoadError>,
)
    requires
        loader::load_result(image, file, result),
    ensures
        ({
            let handled = are_handled(image.dynamic_rels, image) && are_handled(
                image.dynamic_relas,
                image,
            ) && are_handled(image.plt_relocations, image);
            &&& result is Ok <==> image.entry == 0 && holds_its_segments(image, file) && handled
            &&& image.entry != 0 <==> result == Err::<KernelData, _>(
                loader::LoadError::NonZeroEntry(image.entry),
            )
            &&& image.entry == 0 && !holds_its_segments(image, file) <==> result
                is Err && result->Err_0 is SegmentOutOfBounds
            &&& result matches Err(loader::LoadError::UnsupportedRelocation(kind)) ==> kind != 1
                && kind != 3
            &&& result matches Err(loader::LoadError::MissingSymbol(symbol)) ==> symbol
                >= image.dynamic_symbols.len()
        }),
{
    let entries = loader::relocation_entries(image);
    let (rels, relas) = (image.dynamic_rels, image.dynamic_relas);
    assert(loader::segments_in_file(image, file) <==> holds_its_segments(image, file)) by {
        if holds_its_segments(image, file) {
            assert forall|i: int| 0 <= i < image.segments.len() implies loader::segment_in_file(
                #[trigger] image.segments[i],
                file.len(),
            ) by {}
        }
        if loader::segments_in_file(image, file) {
            assert forall|i: int|
                0 <= i < image.segments.len() && (#[trigger] image.segments[i]).kind
                    == 1 implies image.segments[i].offset + image.segments[i].file_size
                <= file.len() by {
                assert(loader::segment_in_file(image.segments[i], file.len()));
            }
        }
    }
    assert forall|i: int| 0 <= i < entries.len() implies loader::relocation_supported(
        #[trigger] entries[i],
        image.dynamic_symbols,
    ) == is_handled(entries[i], image) by {}
    let handled = are_handled(rels, image) && are_handled(relas, image) && are_handled(
        image.plt_relocations,
        image,
    );
    assert(handled <==> are_handled(entries, image)) by {
        if are_handled(entries, image) {
            assert forall|i: int| 0 <= i < rels.len() implies is_handled(
                #[trigger] rels[i],
                image,
            ) by {
                assert(entries[i] == rels[i]);
            }
            assert forall|i: int| 0 <= i < relas.len() implies is_handled(
                #[trigger] relas[i],
                image,
            ) by {
                assert(entries[rels.len() + i] == relas[i]);
            }
            let plt = image.plt_relocations;
            assert forall|i: int| 0 <= i < plt.len() implies is_handled(#[trigger] plt[i], image) by {
                assert(entries[rels.len() + relas.len() + i] == plt[i]);
            }
        }
    }
    loader::a_file_loads_exactly_if_loadable(image, file, result);
    assert(loader::loadable(image, file) <==> image.entry == 0 && loader::segments_in_file(
        image,
        file,
    ) && are_handled(entries, image));
}

/// The resets of a Tensix are set by one write to its reset register, and read back from the same
/// register: both are of the same value.
pub proof fn resets_are_read_back(core: NocAddress, value: u32)
    ensures
        ({
            let commands = loader::set_resets(core, value as int);
            &&& commands.len() == 2
            &&& commands[0] is Write32 && commands[1] is Expect32
            &&& commands[0]->Write32_core == core && commands[1]->Expect32_core == core
            &&& commands[0]->Write32_addr == 0xFFB121B0 && commands[1]->Expect32_addr == 0xFFB121B0
            &&& commands[0]->Write32_value == value && commands[1]->Expect32_value == value
            &&& commands[0]->Write32_noc_id == commands[1]->Expect32_noc_id
        }),
{
}

/// A staggered start sets the highest bit of the resets and nothing else, and keeping the TRISCs under
/// reset sets their three bits and nothing else.
pub proof fn starts_differ_in_their_own_bits(keep_triscs_under_reset: bool, stagger_start: bool)
    ensures
        loader::start_resets(keep_triscs_under_reset, true) == loader::start_resets(
            keep_triscs_under_reset,
            false,
        ) + 0x8000_0000,
        loader::start_resets(true, stagger_start) == loader::start_resets(false, stagger_start)
            + 0x7000,
        loader::start_resets(true, false) + 0x800 == loader::all_resets(),
{
}

} // verus!
