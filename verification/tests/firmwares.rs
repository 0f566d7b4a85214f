use std::collections::HashMap;

use ttx_runtime::builder::CacheEnable;
use ttx_runtime::chip::{Arch, Chip, ChipCommand, NocAddress, NocId, Tile};
use ttx_runtime::firmware;
use ttx_runtime::firmware::common_gen;
use ttx_runtime::firmware::dram_pull;
use ttx_runtime::firmware::dram_pull::{
    DramPullFirmware, DramPullFirmwareParameters, JobSearch, OutputDrain,
};
use ttx_runtime::firmware::push;
use ttx_runtime::firmware::push::{PushFirmware, PushFirmwareParameters, Search};
use ttx_runtime::kernel::{CoreData, KernelBinData, KernelBytes, KernelData};
use ttx_runtime::launch_data::{CoreLaunchData, LaunchRequest};
use ttx_runtime::loader::{KernelRelocation, RelocationRead};
use ttx_runtime::relocate;
use ttx_runtime::symbols::SymbolTable;
use ttx_runtime::wire;
use ttx_runtime::workload::{Workload, WorkloadBuilder};

fn kernel(symbols: &[(&str, u64)]) -> KernelData {
    let core = CoreData { entry: None, state: None, postcode: None, panic: None };
    let mut sym_table = SymbolTable::new();
    for (name, value) in symbols {
        sym_table.insert(name.to_string(), *value);
    }
    KernelData {
        bin: KernelBinData {
            start_sync: None,
            brisc_state: core,
            ncrisc_state: core,
            trisc0_state: core,
            trisc1_state: core,
            trisc2_state: core,
            data_start: None,
            unknown_panic: None,
            noc_debug: None,
        },
        sym_table,
        writes: Vec::new(),
        relocations: Vec::new(),
    }
}

const LAUNCH_SYMBOLS: [(&str, u64); 11] = [
    ("brisc_kmain", 0x10),
    ("ncrisc_kmain", 0x20),
    ("trisc0_kmain", 0x30),
    ("trisc1_kmain", 0x40),
    ("trisc2_kmain", 0x1_0000_0050),
    ("___ncrisc_stack_top", 0x200),
    ("___trisc0_stack_top", 0x300),
    ("___trisc1_stack_top", 0x400),
    ("___trisc2_stack_top", 0x500),
    ("_bss", 0x60),
    ("_ebss", 0x70),
];

fn relocation(write_offset: u64, read_offset: RelocationRead, addend: i64) -> KernelRelocation {
    KernelRelocation { name: None, write_offset, read_offset, addend }
}

/// A workload of sixteen bytes with a relocation of each kind.
fn workload() -> Workload {
    let mut data = kernel(&LAUNCH_SYMBOLS);
    data.writes = vec![KernelBytes { addr: 0, data: (1..=16).collect() }];
    data.relocations = vec![
        relocation(0, RelocationRead::Base, 2),
        relocation(4, RelocationRead::SymbolValue32(8), 0),
        relocation(8, RelocationRead::Offset(12), -1),
    ];
    Workload { data }
}

fn tile(x: u8, y: u8) -> Tile {
    Tile { addr: NocAddress { n0: (x, y), n1: (y, x) } }
}

/// The memory of a chip's tiles.
struct Memory {
    bytes: HashMap<(NocAddress2, u64), u8>,
}

type NocAddress2 = ((u8, u8), (u8, u8));

impl Memory {
    fn new() -> Self {
        Memory { bytes: HashMap::new() }
    }

    fn write(&mut self, core: NocAddress, addr: u64, data: &[u8]) {
        for (i, byte) in data.iter().enumerate() {
            self.bytes.insert(((core.n0, core.n1), addr + i as u64), *byte);
        }
    }

    fn read(&self, core: NocAddress, addr: u64, len: usize) -> Vec<u8> {
        (0..len as u64)
            .map(|i| *self.bytes.get(&((core.n0, core.n1), addr + i)).unwrap_or(&0))
            .collect()
    }

    fn read32(&self, core: NocAddress, addr: u64) -> u32 {
        let bytes = self.read(core, addr, 4);
        u32::from_le_bytes([bytes[0], bytes[1], bytes[2], bytes[3]])
    }

    fn perform(&mut self, chip: &mut Chip) {
        for command in chip.take_commands() {
            match command {
                ChipCommand::Write { core, addr, data, .. } => self.write(core, addr, &data),
                other => panic!("not expected: {other:?}"),
            }
        }
    }
}

#[test]
fn manifests_name_their_crates() {
    let with = common_gen::write_cargo_toml(true, "/m", "/s", "/r");
    assert!(with.contains("tensix-std = {path = \"/m/../../../tensix-std\"}\n        runtime-shared = {path = \"/s\"}\n        postcard = \"1.1.1\"\n        defmt = \"1.0.0\"\n        relocate = {path = \"/r\"}\n        "));
    let without = common_gen::write_cargo_toml(false, "/m", "/s", "/r");
    assert!(without.contains("postcard = \"1.1.1\"\n        \n        relocate = {path = \"/r\"}"));
    assert!(!without.contains("defmt"));
}

#[test]
fn shared_crates_lie_next_to_the_manifest() {
    let some = |path: &str| Some(path.to_string());
    assert_eq!(common_gen::shared_path("/a/runtime/executor"), some("/a/runtime/runtime-shared"));
    assert_eq!(common_gen::relocate_path("/a/runtime/executor"), some("/a/relocate"));
    assert_eq!(common_gen::shared_path("/executor"), some("/runtime-shared"));
    assert_eq!(common_gen::relocate_path("/runtime/executor"), some("/relocate"));
    assert_eq!(common_gen::relocate_path("runtime/executor"), some("relocate"));
    assert_eq!(common_gen::shared_path("executor"), some("runtime-shared"));
    assert_eq!(common_gen::relocate_path("/a/.b/.c/executor"), some("/a/.b/relocate"));
    assert_eq!(common_gen::relocate_path("executor"), None);
    assert_eq!(common_gen::relocate_path("/executor"), None);
    assert_eq!(common_gen::shared_path("/"), None);
    assert_eq!(common_gen::relocate_path(""), None);
}

#[test]
fn sources_hold_what_is_put_into_them() {
    let source = common_gen::write_main("GLOBAL", "BRISC");
    assert!(source.starts_with("\n    #![no_std]\n    #![no_main]\n"));
    assert!(source.contains("\n    GLOBAL\n\n    fn jump_to_stack(addr: u32, new_sp: u32) {\n"));
    assert!(source.contains("            loop {\n                BRISC\n\n                NCRISC_JOB_RESULT.write(None);"));
    assert!(source.contains("\"mv {0}, sp\","));
    assert!(!source.contains("{{") && !source.contains("{global}") && !source.contains("{brisc}"));
}

#[test]
fn push_firmware_is_built() {
    for use_defmt in [false, true] {
        let build = PushFirmware::compile(
            PushFirmwareParameters { use_defmt },
            Arch::Blackhole,
            "SECTIONS",
            "/cache",
            "/m",
            "/s",
            "/r",
        );
        assert_eq!(build.name, "push");
        assert_eq!(build.arch, Arch::Blackhole);
        assert_eq!(build.link_script, "SECTIONS");
        assert!(build.extra_flags.is_empty());
        assert!(matches!(&build.options.use_cache, CacheEnable::CustomDir(dir) if dir == "/cache"));
        assert_eq!(build.options.build_options.profile, "release");
        assert_eq!(build.files.len(), 2);
        assert_eq!(build.files[0].path, "Cargo.toml");
        assert_eq!(build.files[0].text, common_gen::write_cargo_toml(use_defmt, "/m", "/s", "/r"));
        assert_eq!(build.files[1].path, "src/main.rs");
        assert!(build.files[1].text.contains("let (base_addr, job) = wait_for_job();"));
        assert!(build.files[1].text.contains("static mut NEXT_JOB_SLOT: u64 = 0;"));
    }
}

#[test]
fn pull_firmware_is_built() {
    let compile = |use_defmt: bool| {
        DramPullFirmware::compile(
            DramPullFirmwareParameters { use_defmt },
            Arch::Wormhole,
            tile(3, 10),
            0xdead_beef,
            "SECTIONS",
            "/cache",
            "/m",
            "/s",
            "/r",
        )
    };
    let build = compile(true);
    assert_eq!(build.name, "dram-pull");
    assert_eq!(build.extra_flags, ["-C link-arg=-Tdefmt.x"]);
    let main = &build.files[1].text;
    assert!(main.contains("offset: 0xdeadbeef + (((LAUNCH_REQUEST_SIZE as u64 + 63) & !63) * (CORE_ID.read() as u64)),\n"));
    assert!(main.contains("x_end: 3,\n"));
    assert!(main.contains("y_end: 10,\n"));
    let load = main.find("let relocation_addr = (binary_addr as u32) + job.kernel_size as u32;").unwrap();
    let relocate = main.find("relocation.relocate_ptr(base_addr as u64, binary_addr);").unwrap();
    assert!(load < relocate);
    assert!(compile(false).extra_flags.is_empty());
    assert!(!compile(false).files[0].text.contains("defmt"));
    assert_eq!(DramPullFirmware::request_memory(12), 768);
}

#[test]
fn linker_scripts_go_by_generation() {
    assert_eq!(firmware::link_script_file(Arch::Grayskull), "grayskull.x");
    assert_eq!(firmware::link_script_file(Arch::Wormhole), "wormhole.x");
    assert_eq!(firmware::link_script_file(Arch::Blackhole), "blackhole.x");
}

#[test]
fn space_starts_behind_the_firmware() {
    let mut data = kernel(&[]);
    assert_eq!(PushFirmware { data: data.clone() }.available_space(), 0);
    data.bin.data_start = Some(0x8000);
    assert_eq!(PushFirmware { data: data.clone() }.available_space(), 0x8000);
    assert_eq!(DramPullFirmware::new(data, Vec::new(), 64, 1).available_space(), 0x8000);
}

#[test]
fn the_search_for_a_waiting_core_goes_around() {
    let mut search = Search::Look { index: 0 };
    for (slot, index) in [(0, 1), (0, 2), (0, 0), (0, 1)] {
        search = search.next(3, slot);
        assert_eq!(search, Search::Look { index });
    }
    search = search.next(3, 0x4000);
    assert_eq!(search, Search::Found { index: 1, job_location: 0x4000 });
    assert_eq!(search.next(3, 0), search);
}

#[test]
fn a_pushed_workload_is_relocated() {
    let firmware = PushFirmware { data: kernel(&[]) };
    let workload = workload();
    assert!(push::can_relocate(&workload, 0x1000));
    assert!(firmware::is_launchable(&workload.data.sym_table));
    let mut chip = Chip::new();
    let launch = firmware.push_workload(&mut chip, tile(1, 2), 0x1000, &workload);
    assert_eq!(
        chip.take_commands(),
        [ChipCommand::Write {
            noc_id: NocId::Noc1,
            core: tile(1, 2).addr,
            addr: 0x1000,
            data: vec![2, 0x10, 0, 0, 8, 0x10, 0, 0, 12, 14, 15, 16, 13, 14, 15, 16],
        }]
    );
    assert_eq!(launch.brisc, CoreLaunchData { entry: 0x10, stack: None });
    assert_eq!(launch.ncrisc, CoreLaunchData { entry: 0x20, stack: Some(0x200) });
    assert_eq!(launch.trisc0, CoreLaunchData { entry: 0x30, stack: Some(0x300) });
    assert_eq!(launch.trisc1, CoreLaunchData { entry: 0x40, stack: Some(0x400) });
    assert_eq!(launch.trisc2, CoreLaunchData { entry: 0x50, stack: Some(0x500) });
    assert_eq!((launch.bss, launch.ebss, launch.flag), (0x60, 0x70, 1));
}

#[test]
fn what_cannot_be_relocated_or_launched_is_told() {
    let mut workload = workload();
    workload.data.relocations.push(relocation(13, RelocationRead::Base, 0));
    assert!(!push::can_relocate(&workload, 0x1000));
    assert!(!push::can_relocate(&self::workload(), 0xffff_fff9));
    for skipped in 0..LAUNCH_SYMBOLS.len() {
        let symbols: Vec<(&str, u64)> = LAUNCH_SYMBOLS
            .iter()
            .enumerate()
            .filter(|(i, _)| *i != skipped)
            .map(|(_, symbol)| *symbol)
            .collect();
        assert!(!firmware::is_launchable(&kernel(&symbols).sym_table));
    }
}

#[test]
fn a_push_is_waited_for() {
    let firmware = PushFirmware { data: kernel(&[]) };
    let waited = firmware.wait(0, 99, 1, 0);
    assert!(waited.changed && !waited.done);
    let waited = firmware.wait(99, 99, 0, 0);
    assert!(!waited.changed && !waited.done);
    let waited = firmware.wait(99, 99, 1, 0x100);
    assert!(!waited.done);
    assert!(firmware.wait(99, 5, 0, 0x100).done);
}

#[test]
fn a_packed_workload_comes_apart() {
    let firmware = DramPullFirmware::new(kernel(&[]), Vec::new(), 0x1000, 1);
    let (kernel_size, packed) = firmware.get_workload_binary(&workload());
    assert_eq!(kernel_size, 16);
    assert_eq!(packed[..16], (1..=16).collect::<Vec<u8>>());
    assert_eq!(packed[16..24], [3, 0, 0, 0, 0, 0, 0, 0]);
    let (first, rest) = postcard::take_from_bytes::<(u64, u32, i64)>(&packed[24..]).unwrap();
    assert_eq!(first, (0, 0, 2));
    let (second, rest) = postcard::take_from_bytes::<(u64, u32, u32, i64)>(rest).unwrap();
    assert_eq!(second, (4, 1, 8, 0));
    let (third, rest) = postcard::take_from_bytes::<(u64, u32, u64, i64)>(rest).unwrap();
    assert_eq!(third, (8, 2, 12, -1));
    assert!(rest.is_empty());
}

#[test]
fn a_pulled_workload_is_what_is_pushed() {
    let workload = workload();
    let firmware = DramPullFirmware::new(kernel(&[]), Vec::new(), 0x1000, 1);
    let (kernel_size, packed) = firmware.get_workload_binary(&workload);
    let mut pulled = packed[..kernel_size].to_vec();
    let rest = &packed[kernel_size + 8..];
    let (base, rest) = postcard::take_from_bytes::<(u64, u32, i64)>(rest).unwrap();
    let (symbol, rest) = postcard::take_from_bytes::<(u64, u32, u32, i64)>(rest).unwrap();
    let (read, _) = postcard::take_from_bytes::<(u64, u32, u64, i64)>(rest).unwrap();
    for (write_offset, read_offset, addend) in [
        (base.0, relocate::RelocationRead::Base32, base.2),
        (symbol.0, relocate::RelocationRead::SymbolValue32(symbol.2), symbol.3),
        (read.0, relocate::RelocationRead::Offset(read.2), read.3),
    ] {
        relocate::KernelRelocation { write_offset, read_offset, addend }
            .relocate_binary(0x1000, &mut pulled);
    }

    let mut chip = Chip::new();
    PushFirmware { data: kernel(&[]) }.push_workload(&mut chip, tile(1, 2), 0x1000, &workload);
    assert!(matches!(
        chip.take_commands().as_slice(),
        [ChipCommand::Write { data: pushed, .. }] if *pushed == pulled
    ));
}

#[test]
fn a_staged_workload_is_in_dram() {
    let mut firmware = DramPullFirmware::new(kernel(&[]), Vec::new(), 80, 2);
    let banks = [tile(1, 1), tile(2, 2)];
    let mut chip = Chip::new();
    let (_, packed) = firmware.get_workload_binary(&workload());

    let launch = firmware.stage_workload(&mut chip, &banks, &workload()).unwrap();
    assert_eq!(launch.workload_bank, (1, 1));
    assert_eq!(launch.workload_bank_offset, 0);
    assert_eq!(launch.workload_bank_size, packed.len() as u64);
    assert_eq!(launch.kernel_size, 16);
    assert_eq!(launch.brisc, CoreLaunchData { entry: 0x10, stack: None });
    assert_eq!(launch.trisc2, CoreLaunchData { entry: 0x50, stack: Some(0x500) });
    assert_eq!((launch.data_bank, launch.data_bank_offset, launch.flag), ((0, 0), 0, 1));
    assert_eq!(
        chip.take_commands(),
        [ChipCommand::Write {
            noc_id: NocId::Noc1,
            core: banks[0].addr,
            addr: 0,
            data: packed.clone(),
        }]
    );

    // The first bank has no room behind an aligned offset.
    let launch = firmware.stage_workload(&mut chip, &banks, &workload()).unwrap();
    assert_eq!((launch.workload_bank, launch.workload_bank_offset), ((2, 2), 0));
    chip.take_commands();
    assert!(firmware.stage_workload(&mut chip, &banks, &workload()).is_none());
    assert_eq!(chip.take_commands(), []);
}

#[test]
fn the_search_for_a_request_goes_around() {
    let request = LaunchRequest { job_request_addr: 0x40, job_offset: 0x9000 };
    let slot = postcard::to_allocvec(&Some((0x40u64, 0x9000u64))).unwrap();
    let nothing = [0; wire::REQUEST_SIZE];
    let search = JobSearch::Look { index: 0 }.next(2, &nothing);
    assert_eq!(search, JobSearch::Look { index: 1 });
    let search = search.next(2, &nothing);
    assert_eq!(search, JobSearch::Look { index: 0 });
    assert_eq!(search.next(2, &slot), JobSearch::Asked { index: 0, request });
    assert_eq!(search.next(2, &[9]), JobSearch::Malformed { index: 0 });
    assert_eq!(search.next(2, &slot).next(2, &nothing), JobSearch::Asked { index: 0, request });
    assert_eq!(dram_pull::request_offset(3), 192);
    assert!(dram_pull::job_launched(201));
    assert!(!dram_pull::job_launched(200));
}

#[test]
fn a_launch_is_flagged_and_told() {
    let mut firmware = DramPullFirmware::new(kernel(&[]), Vec::new(), 0x1000, 1);
    let mut chip = Chip::new();
    let launch = firmware.stage_workload(&mut chip, &[tile(0, 0)], &workload()).unwrap();
    chip.take_commands();
    let request = LaunchRequest { job_request_addr: 0x40, job_offset: 0x9000 };
    firmware.launch_workload(&mut chip, tile(5, 6), request, &launch);
    assert_eq!(
        chip.take_commands(),
        [ChipCommand::Write {
            noc_id: NocId::Noc1,
            core: tile(5, 6).addr,
            addr: 0x40,
            data: wire::push_launch_data(vec![1], &launch),
        }]
    );
    let queued = firmware.queued(&workload(), tile(5, 6), request, Vec::new());
    assert_eq!(queued.tile, tile(5, 6));
    assert_eq!(queued.offset, 0x9000);
    assert_eq!(queued.data("_bss"), 0x9060);
}

#[test]
fn a_wait_warns_once() {
    let mut drain = OutputDrain::new();
    let second = 1_000_000_000;
    let polled = drain.pulled(false, &[1], second);
    assert!(!polled.warn && !polled.done);
    let polled = drain.pulled(false, &[], second + 1);
    assert!(polled.warn && !polled.done);
    let polled = drain.pulled(true, &[2, 3], 9 * second);
    assert!(!polled.warn && polled.done);
    assert_eq!(drain.output, [1, 2, 3]);

    let firmware = DramPullFirmware::new(kernel(&[]), Vec::new(), 64, 1);
    let request = LaunchRequest { job_request_addr: 0, job_offset: 0 };
    let queued = firmware.queued(&workload(), tile(0, 0), request, Vec::new());
    assert!(queued.wait_buffers_valid(1, false, 9 * second).done);
    assert!(!queued.wait_buffers_valid(1, false, 9 * second).warn);
    assert!(queued.wait_buffers_valid(0, false, 9 * second).warn);
    assert!(!queued.wait_buffers_valid(0, true, 9 * second).warn);
    assert!(!queued.wait_buffers_valid(0, false, second).warn);
}

#[test]
fn an_output_buffer_is_pulled_around_its_end() {
    let firmware = DramPullFirmware::new(kernel(&[]), Vec::new(), 64, 1);
    let request = LaunchRequest { job_request_addr: 0, job_offset: 0 };
    let queued = firmware.queued(&workload(), tile(0, 0), request, Vec::new());
    assert_eq!(queued.pull_output(3, 6, vec![5, 6, 7, 8]), Some((vec![8, 5, 6], 6)));
    assert_eq!(queued.pull_output(7, 1, vec![5, 6, 7, 8]), Some((vec![8, 5], 1)));
    assert_eq!(queued.pull_output(2, 2, vec![5, 6, 7, 8]), Some((vec![], 2)));
    assert_eq!(queued.pull_output(0, 5, vec![5, 6, 7, 8]), None);
    assert_eq!(queued.pull_output(8, 0, vec![5, 6, 7, 8]), None);
    assert_eq!(queued.pull_output(0, 0, vec![]), None);
}

#[test]
fn dynamic_load_push() {
    let mut data = kernel(&[("NEXT_JOB_SLOT", 0x500), ("JOB_LAUNCHED", 0x508), ("JOB_INFO", 0x510)]);
    data.bin.data_start = Some(0x1000);
    let firmware = PushFirmware { data };

    let mut builder = WorkloadBuilder::default();
    builder.available_space = firmware.available_space();
    builder.global = "#[unsafe(no_mangle)]\nstatic VALUE: SYNC<u32> = SYNC::new(26);".to_string();
    builder.brisc = "VALUE.write(2); while VALUE.read() == 1 {}".to_string();
    let build = builder.compile(Arch::Wormhole, "{available_space}", "/m");
    assert!(build.files[1].text.contains("static VALUE: SYNC<u32> = SYNC::new(26);"));
    assert!(build.files[1].text.contains("VALUE.write(2); while VALUE.read() == 1 {}"));
    assert_eq!(build.link_script, "4096");

    // The kernel as it is built: VALUE holds 26 and stands behind a word that points to it.
    let mut data = kernel(&LAUNCH_SYMBOLS);
    data.sym_table.insert("VALUE".to_string(), 4);
    data.writes = vec![KernelBytes { addr: 0, data: vec![0, 0, 0, 0, 26, 0, 0, 0] }];
    data.relocations = vec![relocation(0, RelocationRead::Base, 4)];
    let workload = Workload { data };

    // The third core waits for work.
    let cores = [tile(1, 1), tile(1, 2), tile(1, 3)];
    let mut memory = Memory::new();
    let slot = firmware.data.sym_table.symbol("NEXT_JOB_SLOT");
    memory.write(cores[2].addr, slot, &0x1000u64.to_le_bytes());
    let mut search = Search::Look { index: 0 };
    while let Search::Look { index } = search {
        search = search.next(cores.len(), memory.read32(cores[index].addr, slot));
    }
    assert_eq!(search, Search::Found { index: 2, job_location: 0x1000 });

    let mut chip = Chip::new();
    assert!(push::can_relocate(&workload, 0x1000));
    let launch = firmware.push_workload(&mut chip, cores[2], 0x1000, &workload);
    memory.perform(&mut chip);
    assert_eq!(launch.flag, 1);
    let loaded = firmware.launched(workload, cores[2], 0x1000);
    assert_eq!(memory.read32(cores[2].addr, loaded.data("VALUE")), 26);

    // The core follows the pointer and writes 2.
    let pointer = memory.read32(cores[2].addr, 0x1000) as u64;
    memory.write(cores[2].addr, pointer, &2u32.to_le_bytes());
    assert!(firmware.wait(0, 202, 0, 0x1000).done);

    let result = memory.read32(loaded.tile.addr, loaded.data("VALUE"));
    assert_eq!(result, 2);
}

#[test]
fn dynamic_load_dram_pull() {
    let mut data = kernel(&[("JOB_LAUNCHED", 0x508)]);
    data.bin.data_start = Some(0x1000);
    let mut firmware = DramPullFirmware::new(data, Vec::new(), 0x10000, 1);

    let mut builder = WorkloadBuilder::default();
    builder.available_space = firmware.available_space();
    let buffer = builder.output_buffer("SYNC", 4, 1);
    let slot = buffer.get_slot(0).unwrap();
    builder.brisc = format!(
        r#"
            // Signal that the buffers are ready for being interacted with
            make_buffers_valid();

            // Blocks until flushed
            buffer_push(smallest_read_for_{smallest_function}, &{sync_data}, &{sync_write}, &0xfacau32.to_le_bytes());
            {sync_write}.write(4);
            // Blocks until buffer is flushed
            buffer_complete(smallest_read_for_{smallest_function}, &{sync_write}, &{sync_flush});
            "#,
        sync_data = slot.symbol_data(),
        sync_write = slot.symbol_write(),
        smallest_function = slot.symbol_base(),
        sync_flush = slot.symbol_flushed()
    );
    let build = builder.compile(Arch::Wormhole, "{available_space}", "/m");
    for symbol in [slot.symbol_data(), slot.symbol_write(), slot.symbol_flushed(), slot.symbol_read()] {
        assert!(build.files[1].text.contains(&format!("static {symbol}: SYNC<")));
    }
    assert!(build.files[1].text.contains("fn smallest_read_for__BUFFER_SYNC(write: u32) -> u32 {"));

    let mut data = kernel(&LAUNCH_SYMBOLS);
    for (offset, symbol) in
        [slot.symbol_read(), slot.symbol_write(), slot.symbol_flushed(), slot.symbol_data()]
            .into_iter()
            .enumerate()
    {
        data.sym_table.insert(symbol, 64 * offset as u64);
    }
    data.writes = vec![KernelBytes { addr: 0, data: vec![0; 256] }];
    let workload = Workload { data };

    // The host puts the workload into DRAM, and the second core asks for work.
    let mut chip = Chip::new();
    let mut memory = Memory::new();
    let launch = firmware.stage_workload(&mut chip, &[tile(0, 1)], &workload).unwrap();
    memory.perform(&mut chip);
    let cores = [tile(1, 1), tile(1, 2)];
    let mut requests = vec![0; DramPullFirmware::request_memory(cores.len())];
    let asked = postcard::to_allocvec(&Some((0x700u64, 0x2000u64))).unwrap();
    let at = dram_pull::request_offset(1);
    requests[at..at + asked.len()].copy_from_slice(&asked);
    let mut search = JobSearch::Look { index: 0 };
    while let JobSearch::Look { index } = search {
        let at = dram_pull::request_offset(index);
        search = search.next(cores.len(), &requests[at..at + wire::REQUEST_SIZE]);
    }
    let request = LaunchRequest { job_request_addr: 0x700, job_offset: 0x2000 };
    assert_eq!(search, JobSearch::Asked { index: 1, request });
    firmware.launch_workload(&mut chip, cores[1], request, &launch);
    memory.perform(&mut chip);
    assert_eq!(memory.read(cores[1].addr, 0x700, 1), [1]);

    // The core loads the workload from DRAM and relocates it.
    let dram = memory.read(tile(0, 1).addr, launch.workload_bank_offset, launch.workload_bank_size as usize);
    let mut loaded = dram[..launch.kernel_size as usize].to_vec();
    relocate::KernelRelocation {
        write_offset: 200,
        read_offset: relocate::RelocationRead::Base32,
        addend: 0,
    }
    .relocate_binary(request.job_offset, &mut loaded);
    memory.write(cores[1].addr, request.job_offset, &loaded);

    let queued = firmware.queued(&workload, cores[1], request, vec![buffer]);
    let addresses = queued.output_addresses(&slot);
    assert_eq!(addresses.read, 0x2000);
    assert_eq!(addresses.write, 0x2040);
    assert_eq!(addresses.flushed, 0x2080);
    assert_eq!(addresses.data, 0x20c0);
    assert!(queued.wait_buffers_valid(1, false, 0).done);

    // The core pushes the value into its buffer and flushes it.
    let core = queued.tile.addr;
    memory.write(core, addresses.data, &0xfacau32.to_le_bytes());
    memory.write(core, addresses.write, &4u32.to_le_bytes());
    memory.write(core, addresses.flushed, &1u32.to_le_bytes());

    let mut drain = OutputDrain::new();
    loop {
        let flushed = memory.read32(core, addresses.flushed) != 0;
        let read = memory.read32(core, addresses.read);
        let write = memory.read32(core, addresses.write);
        let cells = memory.read(core, addresses.data, slot.size);
        let (pulled, next_read) = queued.pull_output(read, write, cells).unwrap();
        memory.write(core, addresses.read, &next_read.to_le_bytes());
        if drain.pulled(flushed, &pulled, 0).done {
            break;
        }
    }
    assert_eq!(memory.read32(core, addresses.read), memory.read32(core, addresses.write));
    let data = drain.output;
    let data = u32::from_le_bytes([data[0], data[1], data[2], data[3]]);
    assert_eq!(data, 0xfaca, "0x{data:x}(actual) != 0xfaca(expected)");
}
