//! Putting a workload where a core runs it.

use vstd::prelude::*;

use crate::bytes;
use crate::chip::{CommandView, NocId, Tile};
use crate::dram_allocator;
use crate::dram_allocator::Allocation;
use crate::firmware;
use crate::firmware::dram_pull;
use crate::firmware::push;
use crate::launch_data::{CLaunchData, CoreLaunchData, LaunchData};
use crate::laws::Riscv;
use crate::loader;
use crate::loader::RelocationView;
use crate::relocate::{KernelRelocation, RelocationRead};
use crate::wire;
use crate::workload;
use crate::workload::Workload;

verus! {

/// What a job that is pulled tells a core.
pub open spec fn told(launch: LaunchData, core: Riscv) -> CoreLaunchData {
    match core {
        Riscv::Brisc => launch.brisc,
        Riscv::Ncrisc => launch.ncrisc,
        Riscv::Trisc0 => launch.trisc0,
        Riscv::Trisc1 => launch.trisc1,
        Riscv::Trisc2 => launch.trisc2,
    }
}

/// What a job that is pushed tells a core.
pub open spec fn told_by_push(launch: CLaunchData, core: Riscv) -> CoreLaunchData {
    match core {
        Riscv::Brisc => launch.brisc,
        Riscv::Ncrisc => launch.ncrisc,
        Riscv::Trisc0 => launch.trisc0,
        Riscv::Trisc1 => launch.trisc1,
        Riscv::Trisc2 => launch.trisc2,
    }
}

/// Whether a core is told to start at the function that bears its name, on the stack that bears its
/// name; the BRISC keeps its stack.
pub open spec fn starts_at_its_own(
    told: CoreLaunchData,
    symbols: Map<Seq<char>, u64>,
    core: Riscv,
) -> bool {
    &&& told.entry == symbols[core.lower() + "_kmain"@] % 0x1_0000_0000
    &&& told.stack is None <==> core is Brisc
    &&& told.stack matches Some(stack) ==> stack == symbols["___"@ + core.lower() + "_stack_top"@]
        % 0x1_0000_0000
}

proof fn lemma_launch_names(core: Riscv)
    ensures
        core.lower() + "_kmain"@ == match core {
            Riscv::Brisc => "brisc_kmain"@,
            Riscv::Ncrisc => "ncrisc_kmain"@,
            Riscv::Trisc0 => "trisc0_kmain"@,
            Riscv::Trisc1 => "trisc1_kmain"@,
            Riscv::Trisc2 => "trisc2_kmain"@,
        },
        !(core is Brisc) ==> "___"@ + core.lower() + "_stack_top"@ == match core {
            Riscv::Ncrisc => "___ncrisc_stack_top"@,
            Riscv::Trisc0 => "___trisc0_stack_top"@,
            Riscv::Trisc1 => "___trisc1_stack_top"@,
            _ => "___trisc2_stack_top"@,
        },
{
    reveal_strlit("_kmain");
    reveal_strlit("___");
    reveal_strlit("_stack_top");
    match core {
        Riscv::Brisc => {
            reveal_strlit("brisc");
            reveal_strlit("brisc_kmain");
            assert(core.lower() + "_kmain"@ =~= "brisc_kmain"@);
        },
        Riscv::Ncrisc => {
            reveal_strlit("ncrisc");
            reveal_strlit("ncrisc_kmain");
            reveal_strlit("___ncrisc_stack_top");
            assert(core.lower() + "_kmain"@ =~= "ncrisc_kmain"@);
            assert("___"@ + core.lower() + "_stack_top"@ =~= "___ncrisc_stack_top"@);
        },
        Riscv::Trisc0 => {
            reveal_strlit("trisc0");
            reveal_strlit("trisc0_kmain");
            reveal_strlit("___trisc0_stack_top");
            assert(core.lower() + "_kmain"@ =~= "trisc0_kmain"@);
            assert("___"@ + core.lower() + "_stack_top"@ =~= "___trisc0_stack_top"@);
        },
        Riscv::Trisc1 => {
            reveal_strlit("trisc1");
            reveal_strlit("trisc1_kmain");
            reveal_strlit("___trisc1_stack_top");
            assert(core.lower() + "_kmain"@ =~= "trisc1_kmain"@);
            assert("___"@ + core.lower() + "_stack_top"@ =~= "___trisc1_stack_top"@);
        },
        Riscv::Trisc2 => {
            reveal_strlit("trisc2");
            reveal_strlit("trisc2_kmain");
            reveal_strlit("___trisc2_stack_top");
            assert(core.lower() + "_kmain"@ =~= "trisc2_kmain"@);
            assert("___"@ + core.lower() + "_stack_top"@ =~= "___trisc2_stack_top"@);
        },
    }
}

/// A workload that is pulled starts every core at its own function and on its own stack, clears the
/// workload's own zeroes, and is marked as there.
pub proof fn pulled_cores_start_at_their_own_functions(
    symbols: Map<Seq<char>, u64>,
    bank: Tile,
    offset: u64,
    size: int,
    kernel_size: int,
    core: Riscv,
)
    ensures
        ({
            let launch = dram_pull::pulled_launch_data(symbols, bank, offset, size, kernel_size);
            &&& starts_at_its_own(told(launch, core), symbols, core)
            &&& launch.bss == symbols["_bss"@] % 0x1_0000_0000
            &&& launch.ebss == symbols["_ebss"@] % 0x1_0000_0000
            &&& launch.flag != 0
        }),
{
    lemma_launch_names(core);
}

/// A workload that is pushed starts every core at its own function and on its own stack, clears the
/// workload's own zeroes, and is marked as there.
pub proof fn pushed_cores_start_at_their_own_functions(symbols: Map<Seq<char>, u64>, core: Riscv)
    ensures
        ({
            let launch = push::pushed_launch_data(symbols);
            &&& starts_at_its_own(told_by_push(launch, core), symbols, core)
            &&& launch.bss == symbols["_bss"@] % 0x1_0000_0000
            &&& launch.ebss == symbols["_ebss"@] % 0x1_0000_0000
            &&& launch.flag != 0
        }),
{
    lemma_launch_names(core);
}

/// A workload can be launched exactly if it defines what its cores are started with.
pub proof fn what_is_launched_has_to_be_defined(symbols: Map<Seq<char>, u64>)
    ensures
        firmware::launchable(symbols) <==> {
            &&& forall|core: Riscv|
                symbols.contains_key(#[trigger] core.lower() + "_kmain"@) && (core is Brisc
                    || symbols.contains_key("___"@ + core.lower() + "_stack_top"@))
            &&& symbols.contains_key("_bss"@)
            &&& symbols.contains_key("_ebss"@)
        },
{
    lemma_launch_names(Riscv::Brisc);
    lemma_launch_names(Riscv::Ncrisc);
    lemma_launch_names(Riscv::Trisc0);
    lemma_launch_names(Riscv::Trisc1);
    lemma_launch_names(Riscv::Trisc2);
    if forall|core: Riscv|
        symbols.contains_key(#[trigger] core.lower() + "_kmain"@) && (core is Brisc
            || symbols.contains_key("___"@ + core.lower() + "_stack_top"@)) {
        assert(symbols.contains_key(Riscv::Brisc.lower() + "_kmain"@));
        assert(symbols.contains_key(Riscv::Ncrisc.lower() + "_kmain"@));
        assert(symbols.contains_key(Riscv::Trisc0.lower() + "_kmain"@));
        assert(symbols.contains_key(Riscv::Trisc1.lower() + "_kmain"@));
        assert(symbols.contains_key(Riscv::Trisc2.lower() + "_kmain"@));
    }
    if firmware::launchable(symbols) {
        assert forall|core: Riscv|
            symbols.contains_key(#[trigger] core.lower() + "_kmain"@) && (core is Brisc
                || symbols.contains_key("___"@ + core.lower() + "_stack_top"@)) by {
            lemma_launch_names(core);
        }
    }
}

/// What a job says of a workload is where it lies: the bank and the place that were written to, how
/// much was written, and how much of that is the kernel, which comes first. It lies in a bank of the
/// chip, aligned, in memory that was free.
pub proof fn a_job_tells_where_its_workload_lies(
    free_before: Seq<Map<usize, usize>>,
    free_after: Seq<Map<usize, usize>>,
    commands_before: Seq<CommandView>,
    commands_after: Seq<CommandView>,
    banks: Seq<Tile>,
    workload: Workload,
    launch: LaunchData,
) -> (place: (int, Seq<u8>))
    requires
        dram_pull::staged(
            free_before,
            free_after,
            commands_before,
            commands_after,
            banks,
            workload,
            Some(launch),
        ),
        banks.len() == free_before.len(),
        workload.data@.relocations.len() <= u64::MAX,
        ({
            let binary = workload::binary_of(workload.data@.writes);
            dram_pull::packed(binary, workload.data@.relocations).len() <= usize::MAX
        }),
    ensures
        ({
            let (bank, data) = place;
            let size = launch.kernel_size as int;
            &&& 0 <= bank < banks.len()
            &&& commands_after.len() == commands_before.len() + 1
            &&& commands_after.drop_last() == commands_before
            &&& commands_after.last() == (CommandView::Write {
                noc_id: NocId::Noc1,
                core: banks[bank].addr,
                addr: launch.workload_bank_offset,
                data,
            })
            &&& launch.workload_bank == banks[bank].addr.n0
            &&& launch.workload_bank_offset % 64 == 0
            &&& launch.workload_bank_size == data.len()
            &&& 0 <= size <= data.len()
            &&& data.take(size) == workload::binary_of(workload.data@.writes)
            &&& data.subrange(size, size + 8) == bytes::le64(
                workload.data@.relocations.len() as u64,
            )
            &&& dram_pull::read_relocations(
                data.skip(size + 8),
                workload.data@.relocations.len() as int,
            ) == Some(dram_pull::applied_all(workload.data@.relocations))
            &&& forall|i: int|
                workload::apart(workload.data@.writes) && 0 <= i < workload.data@.writes.len() ==> {
                    let write = #[trigger] workload.data@.writes[i];
                    data.subrange(write.0 as int, write.0 + write.1.len()) == write.1
                }
        }),
{
    let block = choose|block: Allocation| #[trigger]
        dram_pull::staged_at(
            free_before,
            free_after,
            commands_before,
            commands_after,
            banks,
            workload,
            launch,
            block,
        );
    let binary = workload::binary_of(workload.data@.writes);
    let data = dram_pull::packed(binary, workload.data@.relocations);
    dram_pull::packed_workloads_come_apart(binary, workload.data@.relocations);
    let key = choose|key: usize| #[trigger]
        dram_allocator::taken(
            free_before,
            free_after,
            block,
            key,
            data.len() as usize,
            dram_pull::WORKLOAD_ALIGN,
        );
    dram_allocator::align_up_is_least_multiple(key as int, dram_pull::WORKLOAD_ALIGN as int);
    assert(commands_after.drop_last() =~= commands_before);
    assert forall|i: int|
        workload::apart(workload.data@.writes) && 0 <= i < workload.data@.writes.len() implies {
        let write = #[trigger] workload.data@.writes[i];
        data.subrange(write.0 as int, write.0 + write.1.len()) == write.1
    } by {
        let write = workload.data@.writes[i];
        workload::writes_apart_are_all_in_place(workload.data@.writes, i);
        assert(data.subrange(write.0 as int, write.0 + write.1.len()) =~= binary.subrange(
            write.0 as int,
            write.0 + write.1.len(),
        ));
    }
    (block.dram_bank as int, data)
}

/// The word at a place, the lowest byte first.
pub open spec fn word(binary: Seq<u8>, at: int) -> int {
    binary[at] + 256 * binary[at + 1] + 65536 * binary[at + 2] + 16777216 * binary[at + 3]
}

/// What a relocation adds its addend to, in a binary that is loaded at `base_addr`.
pub open spec fn read_by(relocation: KernelRelocation, base_addr: u64, binary: Seq<u8>) -> int {
    match relocation.read_offset {
        RelocationRead::Base32 => base_addr as int % 0x1_0000_0000,
        RelocationRead::SymbolValue32(value) => base_addr as int % 0x1_0000_0000 + value,
        RelocationRead::Offset(offset) => word(binary, offset as int),
    }
}

/// A relocation puts the address that it reads, with its addend, where it writes, and changes nothing
/// else.
pub proof fn a_relocation_writes_an_address(
    relocation: KernelRelocation,
    base_addr: u64,
    binary: Seq<u8>,
)
    requires
        relocation.applicable(base_addr, binary),
    ensures
        ({
            let after = relocation.relocated_binary(base_addr, binary);
            &&& after.len() == binary.len()
            &&& word(after, relocation.write_offset as int) == (read_by(
                relocation,
                base_addr,
                binary,
            ) + relocation.addend) % 0x1_0000_0000
            &&& forall|i: int|
                0 <= i < binary.len() && !(relocation.write_offset <= i < relocation.write_offset
                    + 4) ==> #[trigger] after[i] == binary[i]
        }),
{
    let after = relocation.relocated_binary(base_addr, binary);
    let at = relocation.write_offset as int;
    let sum = read_by(relocation, base_addr, binary) + relocation.addend;
    let written = (sum % 0x1_0000_0000) as u32;
    let parts = bytes::le32(written);
    assert(after[at] == parts[0] && after[at + 1] == parts[1] && after[at + 2] == parts[2]
        && after[at + 3] == parts[3]);
    lemma_parts_of_word(written);
}

proof fn lemma_parts_of_word(value: u32)
    ensures
        ({
            let parts = bytes::le32(value);
            parts[0] + 256 * parts[1] + 65536 * parts[2] + 16777216 * parts[3] == value
        }),
{
    bytes::le32_reads_back(value);
}

/// Whether a relocation reads no byte of the binary.
pub open spec fn reads_nothing(relocation: KernelRelocation) -> bool {
    !(relocation.read_offset is Offset)
}

/// Where relocations that read nothing write apart from each other, all of them are in place when
/// they are all applied, and every other byte is as before.
pub proof fn every_relocation_is_applied(
    relocations: Seq<RelocationView>,
    base_addr: u64,
    binary: Seq<u8>,
)
    requires
        push::all_applicable(relocations, base_addr, binary),
        forall|i: int|
            0 <= i < relocations.len() ==> reads_nothing((#[trigger] relocations[i]).applied()),
        forall|i: int, j: int|
            0 <= i < j < relocations.len() ==> {
                ||| (#[trigger] relocations[i]).write_offset + 4 <= (
                #[trigger] relocations[j]).write_offset
                ||| relocations[j].write_offset + 4 <= relocations[i].write_offset
            },
    ensures
        ({
            let after = push::relocated_all(relocations, base_addr, binary);
            &&& after.len() == binary.len()
            &&& forall|i: int|
                0 <= i < relocations.len() ==> word(
                    after,
                    (#[trigger] relocations[i]).write_offset as int,
                ) == (read_by(relocations[i].applied(), base_addr, binary) + relocations[i].addend)
                    % 0x1_0000_0000
            &&& forall|k: int|
                0 <= k < binary.len() && (forall|i: int|
                    0 <= i < relocations.len() ==> !((#[trigger] relocations[i]).write_offset <= k
                        < relocations[i].write_offset + 4)) ==> #[trigger] after[k] == binary[k]
        }),
    decreases relocations.len(),
{
    if relocations.len() > 0 {
        let before = relocations.drop_last();
        let last = relocations.last();
        let n = relocations.len() - 1;
        assert(relocations[n] == last);
        assert forall|i: int| 0 <= i < before.len() implies (
        #[trigger] before[i]).applied().applicable(
            base_addr,
            push::relocated_all(before.take(i), base_addr, binary),
        ) by {
            assert(relocations[i] == before[i]);
            assert(relocations.take(i) =~= before.take(i));
        }
        assert forall|i: int| 0 <= i < before.len() implies reads_nothing(
            (#[trigger] before[i]).applied(),
        ) by {
            assert(relocations[i] == before[i]);
        }
        assert forall|i: int, j: int| 0 <= i < j < before.len() implies {
            ||| (#[trigger] before[i]).write_offset + 4 <= (#[trigger] before[j]).write_offset
            ||| before[j].write_offset + 4 <= before[i].write_offset
        } by {
            assert(relocations[i] == before[i] && relocations[j] == before[j]);
        }
        every_relocation_is_applied(before, base_addr, binary);
        let mid = push::relocated_all(before, base_addr, binary);
        let after = push::relocated_all(relocations, base_addr, binary);
        assert(relocations.take(n) =~= before);
        assert(last.applied().applicable(base_addr, mid));
        a_relocation_writes_an_address(last.applied(), base_addr, mid);
        assert(reads_nothing(relocations[n].applied()));
        assert forall|i: int| 0 <= i < relocations.len() implies word(
            after,
            (#[trigger] relocations[i]).write_offset as int,
        ) == (read_by(relocations[i].applied(), base_addr, binary) + relocations[i].addend)
            % 0x1_0000_0000 by {
            if i < n {
                assert(relocations[i] == before[i]);
                let at = before[i].write_offset as int;
                assert(before[i].applied().applicable(
                    base_addr,
                    push::relocated_all(before.take(i), base_addr, binary),
                ));
                push::relocating_keeps_the_length(before.take(i), base_addr, binary);
                assert(at + 4 <= binary.len());
                assert(word(mid, at) == word(after, at));
            }
        }
        assert forall|k: int|
            0 <= k < binary.len() && (forall|i: int|
                0 <= i < relocations.len() ==> !((#[trigger] relocations[i]).write_offset <= k
                    < relocations[i].write_offset + 4)) implies #[trigger] after[k] == binary[k] by {
            assert(!(relocations[n].write_offset <= k < relocations[n].write_offset + 4));
            assert forall|i: int| 0 <= i < before.len() implies !((
            #[trigger] before[i]).write_offset <= k < before[i].write_offset + 4) by {
                assert(relocations[i] == before[i]);
            }
            assert(mid[k] == binary[k]);
        }
    }
}

/// A relocation is applied as the loader found it: at the same place, with the same addend, reading
/// the same thing.
pub proof fn relocations_are_applied_as_loaded(relocation: RelocationView)
    ensures
        relocation.applied().write_offset == relocation.write_offset,
        relocation.applied().addend == relocation.addend,
        relocation.read_offset is Base <==> relocation.applied().read_offset is Base32,
        relocation.read_offset matches loader::RelocationRead::SymbolValue32(value)
            ==> relocation.applied().read_offset == RelocationRead::SymbolValue32(value),
        relocation.read_offset matches loader::RelocationRead::Offset(offset)
            ==> relocation.applied().read_offset == RelocationRead::Offset(offset),
{
}

/// What a core is sent to launch a job is a mark and the job, which reads back from it.
pub proof fn a_job_is_sent_whole(launch: LaunchData, rest: Seq<u8>)
    ensures
        ({
            let message = seq![1u8] + wire::launch_wire(launch) + rest;
            &&& message[0] != 0
            &&& wire::read_launch_data(message.skip(1)) == Some(
                (launch, wire::launch_wire(launch).len() as int),
            )
        }),
{
    let message = seq![1u8] + wire::launch_wire(launch) + rest;
    assert(message.skip(1) =~= wire::launch_wire(launch) + rest);
    wire::launch_data_reads_back(launch, rest);
}

/// A relocation can be applied exactly where the word that it writes is in the binary, the word that
/// it reads is too if it reads one, and neither the base with a symbol's value nor the sum with the
/// addend leaves its range.
pub proof fn relocations_apply_within_the_binary(
    relocation: KernelRelocation,
    base_addr: u64,
    binary: Seq<u8>,
)
    ensures
        relocation.applicable(base_addr, binary) <==> {
            let base = base_addr as int % 0x1_0000_0000;
            &&& relocation.write_offset + 4 <= binary.len()
            &&& match relocation.read_offset {
                RelocationRead::Base32 => base + relocation.addend <= i64::MAX,
                RelocationRead::SymbolValue32(value) => base + value <= u32::MAX && base
                    + value + relocation.addend <= i64::MAX,
                RelocationRead::Offset(offset) => offset + 4 <= binary.len() && (
                binary[offset as int] + 256 * binary[offset + 1] + 65536 * binary[offset + 2]
                    + 16777216 * binary[offset + 3]) + relocation.addend <= i64::MAX,
            }
        },
{
    match relocation.read_offset {
        RelocationRead::Offset(offset) => {
            if offset + 4 <= binary.len() {
                let word = binary.skip(offset as int);
                assert(word[0] == binary[offset as int] && word[1] == binary[offset + 1]
                    && word[2] == binary[offset + 2] && word[3] == binary[offset + 3]);
            }
        },
        _ => {},
    }
}

/// The symbols of a workload that was loaded are as far apart as in its kernel, and where the kernel
/// has them if it was loaded at zero.
pub proof fn symbols_keep_their_distance(
    queued: dram_pull::QueuedWorkload,
    first: Seq<char>,
    second: Seq<char>,
)
    requires
        queued.has(first),
        queued.has(second),
    ensures
        ({
            let symbols = queued.workload.data.sym_table@;
            &&& symbols.contains_key(first) && symbols.contains_key(second)
            &&& queued.at(first) - queued.at(second) == symbols[first] - symbols[second]
            &&& queued.at(first) - queued.offset == symbols[first]
        }),
{
}

} // verus!
