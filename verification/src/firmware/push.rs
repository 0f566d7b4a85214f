//! Firmware that workloads are pushed to: the host writes them into the core's memory.

use vstd::prelude::*;

use crate::chip::{Arch, Chip, CommandView, NocId, Tile};
use crate::firmware;
use crate::firmware::common_gen;
use crate::firmware::FirmwareBuild;
use crate::kernel::KernelData;
use crate::launch_data::CLaunchData;
use crate::loader;
use crate::workload;
use crate::workload::{LoadedWorkload, SourceFile, Workload};

verus! {

/// Firmware that workloads are pushed to.
pub struct PushFirmware {
    pub data: KernelData,
}

#[derive(Clone, Copy, Debug, PartialEq, Eq)]
pub struct PushFirmwareParameters {
    /// Whether the firmware logs.
    pub use_defmt: bool,
}

/// How the firmware waits for a job.
pub const PUSH_GLOBAL: &'static str = r#"
        #[unsafe(no_mangle)]
        static JOB_INFO: SYNC<runtime_shared::CLaunchData> = SYNC::new(runtime_shared::CLaunchData::cdefault());

        #[unsafe(no_mangle)]
        static mut NEXT_JOB_SLOT: u64 = 0;

        fn wait_for_job() -> (u32, runtime_shared::CLaunchData) {{
            unsafe {{
                *JOB_LAUNCHED.get() = 23;

                let open_slot = (dyn_base() + ((tensix_std::target::noc_map::ALIGNMENT_L1_READ as u32) - 1)) & !((tensix_std::target::noc_map::ALIGNMENT_L1_READ as u32) - 1);
                (&raw mut NEXT_JOB_SLOT).write_volatile(open_slot as u64);

                *JOB_LAUNCHED.get() = 99;

                while JOB_INFO.get().read_volatile().flag == 0 {{}}

                (&raw mut NEXT_JOB_SLOT).write_volatile(0);

                *JOB_LAUNCHED.get() = 4;

                let output = JOB_INFO.get().read_volatile();
                JOB_INFO.get().write_volatile(runtime_shared::CLaunchData::default());

                *JOB_LAUNCHED.get() = 5;

                (open_slot, output)
            }}
        }}
        "#;

pub const PUSH_BRISC: &'static str = r#"
        *JOB_LAUNCHED.get() = 33;

        let (base_addr, job) = wait_for_job();

        *JOB_LAUNCHED.get() = 100;
        "#;

/// Adds the firmware's source to its files. It is the same for all parameters.
pub fn write_main(files: &mut Vec<SourceFile>, _parameters: PushFirmwareParameters)
    ensures
        workload::files_view(final(files)@) == workload::with_file(
            workload::files_view(old(files)@),
            "src/main.rs"@,
            common_gen::main_source(PUSH_GLOBAL@, PUSH_BRISC@),
        ),
{
    workload::put_file(files, "src/main.rs", common_gen::write_main(PUSH_GLOBAL, PUSH_BRISC));
}

/// The search for a Tensix that waits for work.
#[derive(Clone, Copy, Debug, PartialEq, Eq)]
pub enum Search {
    /// Read the job slot of the Tensix `index`.
    Look { index: usize },
    /// The Tensix `index` waits for work, to be loaded at `job_location`.
    Found { index: usize, job_location: u64 },
}

impl Search {
    /// What follows once the job slot that was to be read held `next_job_addr`. The search goes
    /// around until a Tensix waits.
    pub open spec fn follows(self, tensix_count: int, next_job_addr: u32) -> Search {
        match self {
            Search::Look { index } => if next_job_addr != 0 {
                Search::Found { index, job_location: next_job_addr as u64 }
            } else if index + 1 < tensix_count {
                Search::Look { index: (index + 1) as usize }
            } else {
                Search::Look { index: 0 }
            },
            found => found,
        }
    }

    /// What follows once the job slot that was to be read held `next_job_addr`.
    pub fn next(self, tensix_count: usize, next_job_addr: u32) -> (next: Search)
        ensures
            next == self.follows(tensix_count as int, next_job_addr),
    {
        match self {
            Search::Look { index } => if next_job_addr != 0 {
                Search::Found { index, job_location: next_job_addr as u64 }
            } else if index < tensix_count && tensix_count - index > 1 {
                Search::Look { index: index + 1 }
            } else {
                Search::Look { index: 0 }
            },
            found => found,
        }
    }
}

/// How a wait for a workload goes on.
#[derive(Clone, Copy, Debug, PartialEq, Eq)]
pub struct Waited {
    /// The firmware reported something new.
    pub changed: bool,
    /// The firmware has taken the job and waits for the next one.
    pub done: bool,
}

/// What the relocations of a workload make of its bytes.
pub open spec fn relocated_all(
    relocations: Seq<loader::RelocationView>,
    base_addr: u64,
    binary: Seq<u8>,
) -> Seq<u8>
    decreases relocations.len(),
{
    if relocations.len() == 0 {
        binary
    } else {
        relocations.last().applied().relocated_binary(
            base_addr,
            relocated_all(relocations.drop_last(), base_addr, binary),
        )
    }
}

/// Whether every relocation can be applied, in order.
pub open spec fn all_applicable(
    relocations: Seq<loader::RelocationView>,
    base_addr: u64,
    binary: Seq<u8>,
) -> bool {
    forall|i: int|
        0 <= i < relocations.len() ==> (#[trigger] relocations[i]).applied().applicable(
            base_addr,
            relocated_all(relocations.take(i), base_addr, binary),
        )
}

/// Whether every relocation of a workload can be applied, in order, where it is loaded at
/// `base_addr`.
pub fn can_relocate(workload: &Workload, base_addr: u64) -> (yes: bool)
    requires
        workload::fits(workload.data@.writes),
    ensures
        yes == all_applicable(
            workload.data@.relocations,
            base_addr,
            workload::binary_of(workload.data@.writes),
        ),
{
    let (relocations, binary) = workload.get_binary();
    let mut binary = binary;
    let ghost start = binary@;
    let ghost views = workload.data@.relocations;
    assert(views.len() == relocations@.len());
    for i in 0..relocations.len()
        invariant
            views == workload.data@.relocations,
            start == workload::binary_of(workload.data@.writes),
            views.len() == relocations@.len(),
            forall|j: int| 0 <= j < views.len() ==> views[j] == (#[trigger] relocations@[j])@,
            forall|j: int|
                0 <= j < i ==> (#[trigger] views[j]).applied().applicable(
                    base_addr,
                    relocated_all(views.take(j), base_addr, start),
                ),
            binary@ == relocated_all(views.take(i as int), base_addr, start),
    {
        let relocation = relocations[i].to_kernel_relocation();
        assert(views[i as int].applied() == relocation);
        if !relocation.is_applicable(base_addr, binary.as_slice()) {
            return false;
        }
        relocation.relocate_binary(base_addr, binary.as_mut_slice());
        assert(views.take(i + 1).drop_last() =~= views.take(i as int));
    }
    true
}

/// Relocations do not change how long a workload is.
pub proof fn relocating_keeps_the_length(
    relocations: Seq<loader::RelocationView>,
    base_addr: u64,
    binary: Seq<u8>,
)
    ensures
        relocated_all(relocations, base_addr, binary).len() == binary.len(),
    decreases relocations.len(),
{
    if relocations.len() > 0 {
        relocating_keeps_the_length(relocations.drop_last(), base_addr, binary);
    }
}

impl PushFirmware {
    /// What the build of the firmware takes. The directories are those that `write_cargo_toml`
    /// wants.
    pub fn compile(
        parameters: PushFirmwareParameters,
        arch: Arch,
        link_script: &str,
        cache_dir: &str,
        manifest_dir: &str,
        shared_path: &str,
        relocate_path: &str,
    ) -> (build: FirmwareBuild)
        requires
            !(arch is Unknown),
        ensures
            build.name@ == "push"@,
            build.arch == arch,
            workload::files_view(build.files@) == seq![
                (
                    "Cargo.toml"@,
                    common_gen::cargo_toml(
                        parameters.use_defmt,
                        manifest_dir@,
                        shared_path@,
                        relocate_path@,
                    ),
                ),
                ("src/main.rs"@, common_gen::main_source(PUSH_GLOBAL@, PUSH_BRISC@)),
            ],
            firmware::firmware_options(build.options, cache_dir@),
            build.link_script@ == link_script@,
            build.extra_flags@ == Seq::<String>::empty(),
    {
        let mut files: Vec<SourceFile> = Vec::new();
        workload::put_file(
            &mut files,
            "Cargo.toml",
            common_gen::write_cargo_toml(
                parameters.use_defmt,
                manifest_dir,
                shared_path,
                relocate_path,
            ),
        );
        write_main(&mut files, parameters);
        proof {
            reveal_strlit("Cargo.toml");
            reveal_strlit("src/main.rs");
            assert("Cargo.toml"@[0] != "src/main.rs"@[0]);
            workload::lemma_two_files(
                "Cargo.toml"@,
                common_gen::cargo_toml(
                    parameters.use_defmt,
                    manifest_dir@,
                    shared_path@,
                    relocate_path@,
                ),
                "src/main.rs"@,
                common_gen::main_source(PUSH_GLOBAL@, PUSH_BRISC@),
            );
        }
        FirmwareBuild {
            name: "push".to_string(),
            arch,
            files,
            options: firmware::options_for_firmware(cache_dir),
            link_script: link_script.to_string(),
            extra_flags: Vec::new(),
        }
    }

    /// How much space the firmware leaves a workload.
    pub fn available_space(&self) -> (space: u64)
        ensures
            space == match self.data.bin.data_start {
                Some(start) => start,
                None => 0,
            },
    {
        match self.data.bin.data_start {
            Some(start) => start,
            None => 0,
        }
    }

    /// Writes a workload into the Tensix that a search found, relocated to where it is loaded, and
    /// returns what the firmware is to be told to launch it.
    pub fn push_workload(
        &self,
        device: &mut Chip,
        tensix: Tile,
        job_location: u64,
        workload: &Workload,
    ) -> (launch: CLaunchData)
        requires
            workload::fits(workload.data@.writes),
            all_applicable(
                workload.data@.relocations,
                job_location,
                workload::binary_of(workload.data@.writes),
            ),
            firmware::launchable(workload.data@.symbols),
        ensures
            final(device)@ == old(device)@.push(
                CommandView::Write {
                    noc_id: NocId::Noc1,
                    core: tensix.addr,
                    addr: job_location,
                    data: relocated_all(
                        workload.data@.relocations,
                        job_location,
                        workload::binary_of(workload.data@.writes),
                    ),
                },
            ),
            launch == pushed_launch_data(workload.data@.symbols),
    {
        let (relocations, binary) = workload.get_binary();
        let mut binary = binary;
        let ghost start = binary@;
        let ghost views = workload.data@.relocations;
        for i in 0..relocations.len()
            invariant
                views.len() == relocations@.len(),
                forall|j: int| 0 <= j < views.len() ==> views[j] == (#[trigger] relocations@[j])@,
                all_applicable(views, job_location, start),
                binary@ == relocated_all(views.take(i as int), job_location, start),
        {
            let relocation = relocations[i].to_kernel_relocation();
            assert(views[i as int].applied() == relocation);
            relocation.relocate_binary(job_location, binary.as_mut_slice());
            assert(views.take(i + 1).drop_last() =~= views.take(i as int));
        }
        assert(views.take(views.len() as int) =~= views);
        device.noc_write(NocId::Noc1, tensix.addr, job_location, binary.as_slice());

        let symbols = &workload.data.sym_table;
        CLaunchData {
            brisc: firmware::core_launch_data(symbols, "brisc_kmain", None),
            ncrisc: firmware::core_launch_data(
                symbols,
                "ncrisc_kmain",
                Some("___ncrisc_stack_top"),
            ),
            trisc0: firmware::core_launch_data(
                symbols,
                "trisc0_kmain",
                Some("___trisc0_stack_top"),
            ),
            trisc1: firmware::core_launch_data(
                symbols,
                "trisc1_kmain",
                Some("___trisc1_stack_top"),
            ),
            trisc2: firmware::core_launch_data(
                symbols,
                "trisc2_kmain",
                Some("___trisc2_stack_top"),
            ),
            bss: firmware::symbol32(symbols, "_bss"),
            ebss: firmware::symbol32(symbols, "_ebss"),
            flag: 1,
        }
    }

    /// The workload once it was launched.
    pub fn launched(&self, workload: Workload, tensix: Tile, job_location: u64) -> (loaded:
        LoadedWorkload)
        ensures
            loaded == (LoadedWorkload { workload, tile: tensix, base_addr: job_location }),
    {
        LoadedWorkload { workload, tile: tensix, base_addr: job_location }
    }

    /// Whether a launched workload has completed. `last_job_launched` is what the firmware reported
    /// at the look before, and the other three are what it reports now: how far it is, the flag of
    /// the job that it was given, and its job slot.
    pub fn wait(
        &self,
        last_job_launched: u32,
        job_launched: u32,
        flag: u32,
        next_job_slot: u32,
    ) -> (waited: Waited)
        ensures
            waited.changed == (job_launched != last_job_launched),
            waited.done == (flag == 0 && next_job_slot != 0),
    {
        Waited {
            changed: last_job_launched != job_launched,
            done: flag == 0 && next_job_slot != 0,
        }
    }
}

/// What the firmware is told to launch a workload.
pub open spec fn pushed_launch_data(symbols: Map<Seq<char>, u64>) -> CLaunchData {
    CLaunchData {
        bss: firmware::symbol32_spec(symbols, "_bss"@),
        ebss: firmware::symbol32_spec(symbols, "_ebss"@),
        brisc: firmware::core_launch(symbols, "brisc_kmain"@, None),
        ncrisc: firmware::core_launch(symbols, "ncrisc_kmain"@, Some("___ncrisc_stack_top"@)),
        trisc0: firmware::core_launch(symbols, "trisc0_kmain"@, Some("___trisc0_stack_top"@)),
        trisc1: firmware::core_launch(symbols, "trisc1_kmain"@, Some("___trisc1_stack_top"@)),
        trisc2: firmware::core_launch(symbols, "trisc2_kmain"@, Some("___trisc2_stack_top"@)),
        flag: 1,
    }
}

/// The search after `looks` looks, where `slots[k]` is what the job slot held at the look `k`.
pub open spec fn search_after(tensix_count: int, slots: Seq<u32>, looks: int) -> Search
    decreases looks,
{
    if looks <= 0 {
        Search::Look { index: 0 }
    } else {
        search_after(tensix_count, slots, looks - 1).follows(tensix_count, slots[looks - 1])
    }
}

/// The search looks at every Tensix in turn, and stops at the first that waits for work.
pub proof fn the_search_stops_at_the_first_that_waits(
    tensix_count: usize,
    slots: Seq<u32>,
    looks: int,
)
    requires
        tensix_count > 0,
        0 <= looks < slots.len(),
        forall|k: int| 0 <= k < looks ==> #[trigger] slots[k] == 0,
    ensures
        search_after(tensix_count as int, slots, looks) == (Search::Look {
            index: (looks % tensix_count as int) as usize,
        }),
        slots[looks] != 0 ==> search_after(tensix_count as int, slots, looks + 1) == (
        Search::Found {
            index: (looks % tensix_count as int) as usize,
            job_location: slots[looks] as u64,
        }),
    decreases looks,
{
    let count = tensix_count as int;
    if looks > 0 {
        the_search_stops_at_the_first_that_waits(tensix_count, slots, looks - 1);
        assert(slots[looks - 1] == 0);
        let before = (looks - 1) % count;
        assert(0 <= before < count) by {
            vstd::arithmetic::div_mod::lemma_mod_bound(looks - 1, count);
        }
        assert(looks % count == if before + 1 < count {
            before + 1
        } else {
            0
        }) by {
            vstd::arithmetic::div_mod::lemma_add_mod_noop(looks - 1, 1, count);
            if before + 1 < count {
                vstd::arithmetic::div_mod::lemma_small_mod((before + 1) as nat, count as nat);
                if count > 1 {
                    vstd::arithmetic::div_mod::lemma_small_mod(1, count as nat);
                }
            } else {
                vstd::arithmetic::div_mod::lemma_mod_self_0(count);
                if count > 1 {
                    vstd::arithmetic::div_mod::lemma_small_mod(1, count as nat);
                }
            }
        }
    } else {
        vstd::arithmetic::div_mod::lemma_small_mod(0, count as nat);
    }
}

} // verus!
