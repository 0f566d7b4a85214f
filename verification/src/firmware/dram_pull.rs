//! Firmware that pulls workloads from DRAM: the host puts them there and tells a core that asks for
//! work where they are.

use std::collections::HashMap;

use vstd::prelude::*;

use crate::bytes;
use crate::chip::{Arch, Chip, CommandView, NocAddress, NocId, Tile};
use crate::circular_buffer::{CbConsumer, CbConsumerMut, CbObserver, CbObserverMut, LocalQueue, Ring};
use crate::dram_allocator;
use crate::dram_allocator::{Allocation, MultiBufferAllocator};
use crate::firmware;
use crate::firmware::common_gen;
use crate::firmware::push;
use crate::firmware::FirmwareBuild;
use crate::kernel::KernelData;
use crate::launch_data::{LaunchData, LaunchRequest};
use crate::loader;
use crate::relocate;
use crate::text;
use crate::wire;
use crate::workload;
use crate::workload::{OutputBuffer, OutputSlot, SourceFile, Workload};

verus! {

#[derive(Clone, Copy, Debug, PartialEq, Eq)]
pub struct DramPullFirmwareParameters {
    /// Whether the firmware logs.
    pub use_defmt: bool,
}

/// Firmware that pulls workloads from DRAM.
pub struct DramPullFirmware {
    /// The file that it was loaded from.
    pub elf: Vec<u8>,
    pub data: KernelData,
    /// What is free of the chip's DRAM.
    pub dram_allocator: MultiBufferAllocator,
}

/// A buffer of an invocation, by its number.
#[derive(Clone, Copy, Debug, PartialEq, Eq)]
pub struct BufferRef {
    pub index: usize,
}

/// Where a buffer is.
#[derive(Clone, Copy, Debug, PartialEq, Eq)]
pub enum BufferLocation {
    Host(u64),
    Noc { location: NocAddress, addr: u64 },
}

/// Where the buffers are that were moved, by their numbers.
pub struct BufferTracker {
    _remaps: HashMap<usize, BufferLocation>,
}

/// The buffers that a kernel is run on.
pub struct Invocation {
    pub inputs: Vec<BufferRef>,
    pub outputs: Vec<BufferRef>,
}

/// A workload that a core has launched.
pub struct QueuedWorkload {
    pub workload: Workload,
    pub tile: Tile,
    /// Where it was loaded.
    pub offset: u64,
    pub outputs: Vec<OutputBuffer>,
}

/// Where the words of an output buffer and its cells are in a core's memory.
#[derive(Clone, Copy, Debug, PartialEq, Eq)]
pub struct OutputAddresses {
    pub read: u64,
    pub write: u64,
    pub flushed: u64,
    pub data: u64,
}

pub const PULL_REQUEST: &'static str = r#"
        use runtime_shared::MaxSize;

        struct JobInfo {
            entry: u32,
            stack: Option<u32>,
        }

        const JOB_INFO_SIZE: usize = <Option<runtime_shared::LaunchData> as runtime_shared::MaxSize>::POSTCARD_MAX_SIZE;
        static mut JOB_INFO: [u8; JOB_INFO_SIZE + 1] = [0; JOB_INFO_SIZE + 1];

        static NEXT_JOB_SLOT: SyncUnsafeCell<u64> = SyncUnsafeCell::new(0);

        const LAUNCH_REQUEST_SIZE: usize = <Option<runtime_shared::LaunchRequest> as runtime_shared::MaxSize>::POSTCARD_MAX_SIZE;
        static LAUNCH_REQUEST: SYNC<[u8; LAUNCH_REQUEST_SIZE]> = SYNC::new([0; LAUNCH_REQUEST_SIZE]);

        fn request_job() -> runtime_shared::LaunchData {
            unsafe {
                JOB_LAUNCHED.write(23);

                let alignment = tensix_std::target::noc_map::ALIGNMENT_DRAM_READ as u32;
                let open_slot = (dyn_base() + (alignment - 1)) & !(alignment - 1);
                NEXT_JOB_SLOT.write(open_slot as u64);

                let launch_request = Some(runtime_shared::LaunchRequest {
                    job_request_addr: (&raw const JOB_INFO) as u64,
                    job_offset: NEXT_JOB_SLOT.read(),
                });

                let to_write = postcard::to_slice(&launch_request, (*LAUNCH_REQUEST.get()).as_mut_slice()).unwrap();
                tensix_std::target::noc::noc_write(
                    tensix_std::target::noc::NocCommandSel::default(),
                    tensix_std::target::noc::NocAddr {
                        offset: 0x"#;

pub const PULL_X: &'static str = r#" + (((LAUNCH_REQUEST_SIZE as u64 + 63) & !63) * (CORE_ID.read() as u64)),
                        x_end: "#;

pub const PULL_Y: &'static str = r#",
                        y_end: "#;

pub const PULL_REST: &'static str = r#",
                        ..Default::default()
                    },
                    to_write,
                    true
                );
                JOB_LAUNCHED.write(3);

                while (&raw mut JOB_INFO[0]).read_volatile() == 0 {}

                JOB_LAUNCHED.write(33);

                let output = postcard::from_bytes(&JOB_INFO[1..]).unwrap();
                (&raw mut JOB_INFO[0]).write_volatile(0);

                JOB_LAUNCHED.write(5);

                output
            }
        }

        fn load_job(job: &runtime_shared::LaunchData) {
            unsafe {
                tensix_std::target::noc::noc_read(
                    tensix_std::target::noc::NocCommandSel::default(),
                    tensix_std::target::noc::NocAddr {
                        offset: job.workload_bank_offset,
                        x_end: job.workload_bank.0,
                        y_end: job.workload_bank.1,
                        ..Default::default()
                    },
                    core::slice::from_raw_parts_mut(NEXT_JOB_SLOT.read() as *mut u8, job.workload_bank_size as usize),
                    true
                );
            }
        }
    "#;

pub const PULL_LOAD: &'static str = r#"
        JOB_LAUNCHED.write(1);

        let job = request_job();

        JOB_LAUNCHED.write(2);

        load_job(&job);

        JOB_LAUNCHED.write(101);

        let binary_addr = NEXT_JOB_SLOT.read() as *mut u8;

        JOB_LAUNCHED.write(102);

        let relocation_addr = (binary_addr as u32) + job.kernel_size as u32;
        let num_relocations = (relocation_addr as *const u64).read_volatile();
        JOB_LAUNCHED.write(num_relocations as u32);
        let relocation_addr = (relocation_addr + core::mem::size_of::<u64>() as u32) as *mut u8;

        JOB_LAUNCHED.write(103);

        let mut relocations = core::slice::from_raw_parts(
            relocation_addr,
            num_relocations as usize * relocate::KernelRelocation::POSTCARD_MAX_SIZE
        );

        let base_addr = binary_addr as u32;

        JOB_LAUNCHED.write(0x104);
    "#;

pub const PULL_RELOCATE: &'static str = r#"
    // Perform relocations
    for i in 0..num_relocations {
        JOB_LAUNCHED.write(0x105 + i as u32);
        let (relocation, next_relocations) = postcard::take_from_bytes::<relocate::KernelRelocation>(relocations).unwrap();
        relocations = next_relocations;

        relocation.relocate_ptr(base_addr as u64, binary_addr);
    }
    "#;

/// The firmware's own items: `job_server` is where it asks for work.
pub open spec fn pull_global(job_server: Tile, job_server_addr: u64) -> Seq<char> {
    PULL_REQUEST@ + text::hex(job_server_addr as int) + PULL_X@ + text::decimal(
        job_server.addr.n0.0 as int,
    ) + PULL_Y@ + text::decimal(job_server.addr.n0.1 as int) + PULL_REST@
}

/// Adds the firmware's source to its files. It is the same for all parameters.
pub fn write_main(
    files: &mut Vec<SourceFile>,
    job_server: Tile,
    job_server_addr: u64,
    _parameters: DramPullFirmwareParameters,
)
    ensures
        workload::files_view(final(files)@) == workload::with_file(
            workload::files_view(old(files)@),
            "src/main.rs"@,
            common_gen::main_source(
                pull_global(job_server, job_server_addr),
                PULL_LOAD@ + PULL_RELOCATE@,
            ),
        ),
{
    let mut global = PULL_REQUEST.to_string();
    text::push_hex(&mut global, job_server_addr);
    global.append(PULL_X);
    text::push_decimal(&mut global, job_server.addr.n0.0 as u64);
    global.append(PULL_Y);
    text::push_decimal(&mut global, job_server.addr.n0.1 as u64);
    global.append(PULL_REST);
    let mut brisc = PULL_LOAD.to_string();
    brisc.append(PULL_RELOCATE);
    let source = common_gen::write_main(global.as_str(), brisc.as_str());
    workload::put_file(files, "src/main.rs", source);
}

/// How long the host waits before it warns, in nanoseconds.
pub const PATIENCE_NANOS: u128 = 1_000_000_000;

/// What to do after a look at a core that is waited for.
#[derive(Clone, Copy, Debug, PartialEq, Eq)]
pub struct Polled {
    /// Warn that the wait takes long. This comes once.
    pub warn: bool,
    /// What was waited for is there.
    pub done: bool,
}

/// What an output buffer gave so far.
pub struct OutputDrain {
    pub output: Vec<u8>,
    pub warned: bool,
}

impl OutputDrain {
    pub fn new() -> (drain: Self)
        ensures
            drain.output@ == Seq::<u8>::empty(),
            !drain.warned,
    {
        OutputDrain { output: Vec::new(), warned: false }
    }

    /// Takes what was pulled. `flushed` was looked at before, so where it is set nothing comes after
    /// what was pulled.
    pub fn pulled(&mut self, flushed: bool, data: &[u8], elapsed_nanos: u128) -> (polled: Polled)
        ensures
            final(self).output@ == old(self).output@ + data@,
            polled.warn == (!old(self).warned && elapsed_nanos > PATIENCE_NANOS),
            polled.done == flushed,
            final(self).warned == (old(self).warned || polled.warn),
    {
        self.output.extend_from_slice(data);
        assert(self.output@ =~= old(self).output@ + data@);
        let warn = !self.warned && elapsed_nanos > PATIENCE_NANOS;
        self.warned = self.warned || warn;
        Polled { warn, done: flushed }
    }
}

/// Takes all unread bytes out of a queue.
pub fn pull_all<C: CbConsumer>(cb: &mut C) -> (data: Vec<u8>)
    requires
        old(cb).ring().valid(),
    ensures
        pulled::<C>(old(cb).ring(), final(cb).ring(), data@),
{
    let ghost before = cb.ring();
    let size: u32 = cb.read_size();
    let ghost now = cb.ring();
    let ghost (first, second) = choose|first: Ring, second: Ring|
        {
            &&& #[trigger] C::peer(before, first)
            &&& #[trigger] C::peer(first, second)
            &&& C::peer(second, now)
            &&& size == crate::circular_buffer::distance(
                first.read,
                second.write,
                second.capacity(),
            )
        };
    proof {
        C::peer_keeps_valid(before, first);
        C::peer_only_writes(before, first);
        C::peer_keeps_valid(first, second);
        C::peer_only_writes(first, second);
        C::peer_keeps_valid(second, now);
        C::peer_only_writes(second, now);
        C::peer_composes(before, first, second);
        assert(size == second.len());
        assert(second.unread().len() == second.len());
        assert(now.unread().len() >= second.unread().len());
    }
    let mut data: Vec<u8> = vec![0u8;size as usize];
    cb.pop_all(data.as_mut_slice());
    proof {
        assert(data@ =~= second.unread()) by {
            assert(forall|i: int|
                0 <= i < second.unread().len() ==> #[trigger] second.unread()[i]
                    == now.unread()[i]);
        }
        let last = choose|last: Ring| #[trigger] C::peer(now, last) && cb.ring()
            == last.after_pop(data@.len() as int);
        C::peer_composes(second, now, last);
        assert(pulled_at::<C>(before, second, last, cb.ring(), data@));
    }
    data
}

/// What a pull may do: `seen` is the queue when its write index was looked at, `last` when the bytes
/// were popped.
pub open spec fn pulled_at<C: CbObserverMut>(
    before: Ring,
    seen: Ring,
    last: Ring,
    after: Ring,
    data: Seq<u8>,
) -> bool {
    &&& C::peer(before, seen)
    &&& C::peer(seen, last)
    &&& data == seen.unread()
    &&& after == last.after_pop(data.len() as int)
    &&& after.valid()
}

/// What a pull gives: all that was unread at some moment since it was called. As much is popped.
pub open spec fn pulled<C: CbObserverMut>(before: Ring, after: Ring, data: Seq<u8>) -> bool {
    exists|seen: Ring, last: Ring| #[trigger] pulled_at::<C>(before, seen, last, after, data)
}

/// Nothing that was unread when a pull was called is missing from what it gives.
pub proof fn a_pull_gives_all_that_was_unread<C: CbConsumerMut>(
    before: Ring,
    after: Ring,
    data: Seq<u8>,
)
    requires
        before.valid(),
        pulled::<C>(before, after, data),
    ensures
        before.unread().is_prefix_of(data),
{
    let (seen, last) = choose|seen: Ring, last: Ring| #[trigger]
        pulled_at::<C>(before, seen, last, after, data);
    C::peer_only_writes(before, seen);
}

/// Two pulls, one after the other, miss nothing and keep the order: what was unread when the first
/// popped is what it gave, followed by the start of what the second gives.
pub proof fn successive_pulls_miss_nothing<C: CbConsumerMut>(
    before: Ring,
    seen: Ring,
    last: Ring,
    between: Ring,
    first: Seq<u8>,
    after: Ring,
    second: Seq<u8>,
)
    requires
        before.valid(),
        pulled_at::<C>(before, seen, last, between, first),
        pulled::<C>(between, after, second),
    ensures
        first.is_prefix_of(last.unread()),
        last.unread().is_prefix_of(first + second),
{
    let count = first.len() as int;
    C::peer_keeps_valid(before, seen);
    C::peer_keeps_valid(seen, last);
    C::peer_only_writes(seen, last);
    assert(last.unread().len() == last.len());
    crate::circular_buffer::popping_takes_the_oldest(last, count);
    a_pull_gives_all_that_was_unread::<C>(between, after, second);
    let rest = last.unread().skip(count);
    assert(last.unread() =~= first + rest);
    assert(rest =~= second.take(rest.len() as int));
    assert((first + second).take(last.unread().len() as int) =~= last.unread());
}

impl QueuedWorkload {
    /// Whether the workload defines `name`, and where it was loaded can be told.
    pub open spec fn has(&self, name: Seq<char>) -> bool {
        &&& self.workload.data.sym_table@.contains_key(name)
        &&& self.offset + self.workload.data.sym_table@[name] <= u64::MAX
    }

    /// Where a symbol was loaded.
    pub open spec fn at(&self, name: Seq<char>) -> u64 {
        (self.offset + self.workload.data.sym_table@[name]) as u64
    }

    /// Where a symbol of the workload was loaded.
    pub fn data(&self, name: &str) -> (addr: u64)
        requires
            self.has(name@),
        ensures
            addr == self.at(name@),
    {
        self.offset + self.workload.data.sym_table.symbol(name)
    }

    /// Where the parts of an output buffer were loaded, for one of its readers.
    pub fn output_addresses(&self, slot: &OutputSlot) -> (addresses: OutputAddresses)
        requires
            self.has(workload::read_symbol(slot.name@, slot.index as int)),
            self.has(workload::buffer_symbol(slot.name@) + "_WRITE_INDEX"@),
            self.has(workload::buffer_symbol(slot.name@) + "_FLUSHED"@),
            self.has(workload::buffer_symbol(slot.name@) + "_DATA"@),
        ensures
            addresses == (OutputAddresses {
                read: self.at(workload::read_symbol(slot.name@, slot.index as int)),
                write: self.at(workload::buffer_symbol(slot.name@) + "_WRITE_INDEX"@),
                flushed: self.at(workload::buffer_symbol(slot.name@) + "_FLUSHED"@),
                data: self.at(workload::buffer_symbol(slot.name@) + "_DATA"@),
            }),
    {
        OutputAddresses {
            read: self.data(slot.symbol_read().as_str()),
            write: self.data(slot.symbol_write().as_str()),
            flushed: self.data(slot.symbol_flushed().as_str()),
            data: self.data(slot.symbol_data().as_str()),
        }
    }

    /// What is unread in an output buffer whose indices and cells were read from the core, and what
    /// to set the read index to. Nothing where these are not the indices of such a buffer.
    pub fn pull_output(&self, read: u32, write: u32, cells: Vec<u8>) -> (pulled: Option<
        (Vec<u8>, u32),
    >)
        ensures
            ({
                let ring = Ring { read: read as int, write: write as int, data: cells@ };
                match pulled {
                    Some((data, next_read)) => {
                        &&& ring.valid()
                        &&& data@ == ring.unread()
                        &&& next_read == ring.after_pop(ring.len()).read
                    },
                    None => !ring.valid(),
                }
            }),
    {
        match LocalQueue::from_memory(read, write, cells) {
            Some(queue) => {
                let mut queue = queue;
                let data = pull_all(&mut queue);
                let next_read: u32 = queue.get_read();
                Some((data, next_read))
            },
            None => None,
        }
    }

    /// What to do after a look at whether the workload's buffers are valid.
    pub fn wait_buffers_valid(&self, buffers_valid: u32, warned: bool, elapsed_nanos: u128) -> (
        polled: Polled)
        ensures
            polled.done == (buffers_valid != 0),
            polled.warn == (buffers_valid == 0 && !warned && elapsed_nanos > PATIENCE_NANOS),
    {
        let done = buffers_valid != 0;
        Polled { warn: !done && !warned && elapsed_nanos > PATIENCE_NANOS, done }
    }
}

/// The search for a Tensix that asked for work.
#[derive(Clone, Copy, Debug, PartialEq, Eq)]
pub enum JobSearch {
    /// Read what the Tensix `index` asked for.
    Look { index: usize },
    /// The Tensix `index` asked for work.
    Asked { index: usize, request: LaunchRequest },
    /// What was to be read is not what a Tensix writes.
    Malformed { index: usize },
}

impl JobSearch {
    /// What follows once what was to be read says `read`. The search goes around until a Tensix has
    /// asked.
    pub open spec fn follows(
        self,
        tensix_count: int,
        read: Option<Option<(u64, u64)>>,
    ) -> JobSearch {
        match self {
            JobSearch::Look { index } => match read {
                None => JobSearch::Malformed { index },
                Some(Some((job_request_addr, job_offset))) => JobSearch::Asked {
                    index,
                    request: LaunchRequest { job_request_addr, job_offset },
                },
                Some(None) => if index + 1 < tensix_count {
                    JobSearch::Look { index: (index + 1) as usize }
                } else {
                    JobSearch::Look { index: 0 }
                },
            },
            other => other,
        }
    }

    /// What follows once `slot` was read.
    pub fn next(self, tensix_count: usize, slot: &[u8]) -> (next: JobSearch)
        ensures
            next == self.follows(tensix_count as int, wire::read_request(slot@)),
    {
        match self {
            JobSearch::Look { index } => match wire::read_launch_request(slot) {
                None => JobSearch::Malformed { index },
                Some(Some(request)) => JobSearch::Asked { index, request },
                Some(None) => if index < tensix_count && tensix_count - index > 1 {
                    JobSearch::Look { index: index + 1 }
                } else {
                    JobSearch::Look { index: 0 }
                },
            },
            other => other,
        }
    }
}

/// Where the Tensix `index` leaves what it asks for, in the memory that the host shares with the
/// chip.
pub fn request_offset(index: usize) -> (offset: usize)
    requires
        index * wire::REQUEST_STRIDE <= usize::MAX,
    ensures
        offset == index * wire::REQUEST_STRIDE,
{
    index * wire::REQUEST_STRIDE
}

/// What the firmware reports once a job runs.
pub const JOB_RUNS: u32 = 201;

/// Whether the core has launched its job.
pub fn job_launched(reported: u32) -> (launched: bool)
    ensures
        launched == (reported == JOB_RUNS),
{
    reported == JOB_RUNS
}

/// The relocations of a workload, one behind the other.
pub open spec fn relocations_wire(relocations: Seq<loader::RelocationView>) -> Seq<u8>
    decreases relocations.len(),
{
    if relocations.len() == 0 {
        seq![]
    } else {
        relocations_wire(relocations.drop_last()) + wire::relocation_wire(
            relocations.last().applied(),
        )
    }
}

/// A workload as it stands in DRAM: the kernel, then the number of its relocations, then these.
pub open spec fn packed(binary: Seq<u8>, relocations: Seq<loader::RelocationView>) -> Seq<u8> {
    binary + bytes::le64(relocations.len() as u64) + relocations_wire(relocations)
}

/// What a core is told to launch a workload.
pub open spec fn pulled_launch_data(
    symbols: Map<Seq<char>, u64>,
    bank: Tile,
    offset: u64,
    size: int,
    kernel_size: int,
) -> LaunchData {
    LaunchData {
        workload_bank: bank.addr.n0,
        workload_bank_offset: offset,
        workload_bank_size: size as u64,
        kernel_size: kernel_size as u64,
        bss: firmware::symbol32_spec(symbols, "_bss"@),
        ebss: firmware::symbol32_spec(symbols, "_ebss"@),
        brisc: firmware::core_launch(symbols, "brisc_kmain"@, None),
        ncrisc: firmware::core_launch(symbols, "ncrisc_kmain"@, Some("___ncrisc_stack_top"@)),
        trisc0: firmware::core_launch(symbols, "trisc0_kmain"@, Some("___trisc0_stack_top"@)),
        trisc1: firmware::core_launch(symbols, "trisc1_kmain"@, Some("___trisc1_stack_top"@)),
        trisc2: firmware::core_launch(symbols, "trisc2_kmain"@, Some("___trisc2_stack_top"@)),
        data_bank: (0, 0),
        data_bank_offset: 0,
        flag: 1,
    }
}

/// How the start of every allocation for a workload is aligned.
pub const WORKLOAD_ALIGN: usize = 64;

impl DramPullFirmware {
    /// How much memory the host shares with a chip for the requests of its Tensixes.
    pub fn request_memory(tensix_count: usize) -> (size: usize)
        requires
            64 * tensix_count <= usize::MAX,
        ensures
            size == 64 * tensix_count,
    {
        64 * tensix_count
    }

    /// What the build of the firmware takes. `job_server` and `job_server_addr` are where the chip
    /// reaches the memory for requests.
    pub fn compile(
        parameters: DramPullFirmwareParameters,
        arch: Arch,
        job_server: Tile,
        job_server_addr: u64,
        link_script: &str,
        cache_dir: &str,
        manifest_dir: &str,
        shared_path: &str,
        relocate_path: &str,
    ) -> (build: FirmwareBuild)
        requires
            !(arch is Unknown),
        ensures
            build.name@ == "dram-pull"@,
            build.arch == arch,
            workload::files_view(build.files@) == seq![
                (
                    "Cargo.toml"@,
                    common_gen::cargo_toml(
                        parameters.use_defmt,
                        manifest_dir@,
                        shared_path@,
                        relocate_path@,
                    ),
                ),
                (
                    "src/main.rs"@,
                    common_gen::main_source(
                        pull_global(job_server, job_server_addr),
                        PULL_LOAD@ + PULL_RELOCATE@,
                    ),
                ),
            ],
            firmware::firmware_options(build.options, cache_dir@),
            build.link_script@ == link_script@,
            workload::strings(build.extra_flags@) == if parameters.use_defmt {
                seq!["-C link-arg=-Tdefmt.x"@]
            } else {
                seq![]
            },
    {
        let mut files: Vec<SourceFile> = Vec::new();
        workload::put_file(
            &mut files,
            "Cargo.toml",
            common_gen::write_cargo_toml(
                parameters.use_defmt,
                manifest_dir,
                shared_path,
                relocate_path,
            ),
        );
        write_main(&mut files, job_server, job_server_addr, parameters);
        proof {
            reveal_strlit("Cargo.toml");
            reveal_strlit("src/main.rs");
            assert("Cargo.toml"@[0] != "src/main.rs"@[0]);
            workload::lemma_two_files(
                "Cargo.toml"@,
                common_gen::cargo_toml(
                    parameters.use_defmt,
                    manifest_dir@,
                    shared_path@,
                    relocate_path@,
                ),
                "src/main.rs"@,
                common_gen::main_source(
                    pull_global(job_server, job_server_addr),
                    PULL_LOAD@ + PULL_RELOCATE@,
                ),
            );
        }

        let mut extra_flags: Vec<String> = Vec::new();
        if parameters.use_defmt {
            extra_flags.push("-C link-arg=-Tdefmt.x".to_string());
            assert(workload::strings(extra_flags@) =~= seq!["-C link-arg=-Tdefmt.x"@]);
        } else {
            assert(workload::strings(extra_flags@) =~= seq![]);
        }
        FirmwareBuild {
            name: "dram-pull".to_string(),
            arch,
            files,
            options: firmware::options_for_firmware(cache_dir),
            link_script: link_script.to_string(),
            extra_flags,
        }
    }

    /// The firmware that was built, for a chip with `dram_count` banks of `dram_size` bytes.
    pub fn new(data: KernelData, elf: Vec<u8>, dram_size: u64, dram_count: usize) -> (firmware:
        Self)
        requires
            dram_size <= usize::MAX,
        ensures
            firmware.data == data,
            firmware.elf == elf,
            firmware.dram_allocator.valid(),
            firmware.dram_allocator@ == Seq::new(
                dram_count as nat,
                |bank: int| map![0usize => dram_size as usize],
            ),
    {
        let sizes: Vec<usize> = vec![dram_size as usize;dram_count];
        let dram_allocator = MultiBufferAllocator::new(sizes);
        assert(dram_allocator@ =~= Seq::new(
            dram_count as nat,
            |bank: int| map![0usize => dram_size as usize],
        ));
        DramPullFirmware { elf, data, dram_allocator }
    }

    /// How much space the firmware leaves a workload.
    pub fn available_space(&self) -> (space: u64)
        ensures
            space == match self.data.bin.data_start {
                Some(start) => start,
                None => 0,
            },
    {
        match self.data.bin.data_start {
            Some(start) => start,
            None => 0,
        }
    }

    /// A workload as it stands in DRAM, and how much of it is the kernel.
    pub fn get_workload_binary(&self, workload: &Workload) -> (result: (usize, Vec<u8>))
        requires
            workload::fits(workload.data@.writes),
        ensures
            result.0 == workload::binary_of(workload.data@.writes).len(),
            result.1@ == packed(
                workload::binary_of(workload.data@.writes),
                workload.data@.relocations,
            ),
    {
        let (relocations, kernel_binary) = workload.get_binary();
        let kernel_size: usize = kernel_binary.len();
        let ghost binary = kernel_binary@;
        let ghost views = workload.data@.relocations;
        assert(views.len() == relocations@.len());

        let mut output = kernel_binary;
        bytes::push_u64_le(&mut output, relocations.len() as u64);
        let ghost head = output@;
        assert(head + relocations_wire(views.take(0)) =~= head);
        for i in 0..relocations.len()
            invariant
                views.len() == relocations@.len(),
                forall|j: int| 0 <= j < views.len() ==> views[j] == (#[trigger] relocations@[j])@,
                output@ == head + relocations_wire(views.take(i as int)),
        {
            let relocation = relocations[i].to_kernel_relocation();
            assert(views[i as int].applied() == relocation);
            assert(views.take(i + 1).drop_last() =~= views.take(i as int));
            output = wire::push_relocation(output, &relocation);
            assert(output@ =~= head + relocations_wire(views.take(i + 1)));
        }
        assert(views.take(views.len() as int) =~= views);
        (kernel_size, output)
    }

    /// Puts a workload into DRAM, and returns what a core is to be told to launch it. `None` where
    /// no bank has room for it. `banks` holds a tile for each bank of the chip.
    pub fn stage_workload(&mut self, chip: &mut Chip, banks: &[Tile], workload: &Workload) -> (
        launch: Option<LaunchData>)
        requires
            old(self).dram_allocator.valid(),
            banks@.len() == old(self).dram_allocator@.len(),
            workload::fits(workload.data@.writes),
            firmware::launchable(workload.data@.symbols),
        ensures
            final(self).elf == old(self).elf,
            final(self).data == old(self).data,
            final(self).dram_allocator.valid(),
            staged(
                old(self).dram_allocator@,
                final(self).dram_allocator@,
                old(chip)@,
                final(chip)@,
                banks@,
                *workload,
                launch,
            ),
    {
        let (kernel_size, workload_binary) = self.get_workload_binary(workload);
        let size: usize = workload_binary.len();
        let ghost free = self.dram_allocator@;
        let allocation = match self.dram_allocator.allocate(size, WORKLOAD_ALIGN) {
            Some(allocation) => allocation,
            None => {
                return None;
            },
        };
        assert(allocation.dram_bank < free.len()) by {
            let key = choose|key: usize| #[trigger]
                dram_allocator::taken(
                    free,
                    self.dram_allocator@,
                    allocation,
                    key,
                    size,
                    WORKLOAD_ALIGN,
                );
        }
        let bank = banks[allocation.dram_bank];
        chip.noc_write(NocId::Noc1, bank.addr, allocation.offset, workload_binary.as_slice());

        let symbols = &workload.data.sym_table;
        let launch = LaunchData {
            workload_bank: bank.addr.n0,
            workload_bank_offset: allocation.offset,
            workload_bank_size: size as u64,
            kernel_size: kernel_size as u64,
            brisc: firmware::core_launch_data(symbols, "brisc_kmain", None),
            ncrisc: firmware::core_launch_data(
                symbols,
                "ncrisc_kmain",
                Some("___ncrisc_stack_top"),
            ),
            trisc0: firmware::core_launch_data(
                symbols,
                "trisc0_kmain",
                Some("___trisc0_stack_top"),
            ),
            trisc1: firmware::core_launch_data(
                symbols,
                "trisc1_kmain",
                Some("___trisc1_stack_top"),
            ),
            trisc2: firmware::core_launch_data(
                symbols,
                "trisc2_kmain",
                Some("___trisc2_stack_top"),
            ),
            bss: firmware::symbol32(symbols, "_bss"),
            ebss: firmware::symbol32(symbols, "_ebss"),
            data_bank: (0, 0),
            data_bank_offset: 0,
            flag: 1,
        };
        assert(staged_at(
            free,
            self.dram_allocator@,
            old(chip)@,
            chip@,
            banks@,
            *workload,
            launch,
            allocation,
        ));
        Some(launch)
    }

    /// Tells the Tensix that asked for work to launch a workload.
    pub fn launch_workload(
        &self,
        chip: &mut Chip,
        tensix: Tile,
        request: LaunchRequest,
        launch: &LaunchData,
    )
        ensures
            final(chip)@ == old(chip)@.push(
                CommandView::Write {
                    noc_id: NocId::Noc1,
                    core: tensix.addr,
                    addr: request.job_request_addr,
                    data: seq![1u8] + wire::launch_wire(*launch),
                },
            ),
    {
        let mut message: Vec<u8> = Vec::new();
        message.push(1);
        let message = wire::push_launch_data(message, launch);
        assert(message@ =~= seq![1u8] + wire::launch_wire(*launch));
        chip.noc_write(NocId::Noc1, tensix.addr, request.job_request_addr, message.as_slice());
    }

    /// The workload once a core has launched it.
    pub fn queued(
        &self,
        workload: &Workload,
        tensix: Tile,
        request: LaunchRequest,
        outputs: Vec<OutputBuffer>,
    ) -> (queued: QueuedWorkload)
        ensures
            queued.workload.data@ == workload.data@,
            queued.tile == tensix,
            queued.offset == request.job_offset,
            queued.outputs == outputs,
    {
        QueuedWorkload {
            workload: workload.dupe(),
            tile: tensix,
            offset: request.job_offset,
            outputs,
        }
    }
}

/// A workload was put into DRAM at `block`.
pub open spec fn staged_at(
    free_before: Seq<Map<usize, usize>>,
    free_after: Seq<Map<usize, usize>>,
    commands_before: Seq<CommandView>,
    commands_after: Seq<CommandView>,
    banks: Seq<Tile>,
    workload: Workload,
    launch: LaunchData,
    block: Allocation,
) -> bool {
    let binary = workload::binary_of(workload.data@.writes);
    let data = packed(binary, workload.data@.relocations);
    let bank = banks[block.dram_bank as int];
    &&& dram_allocator::allocated(
        free_before,
        free_after,
        block,
        data.len() as usize,
        WORKLOAD_ALIGN,
    )
    &&& commands_after == commands_before.push(
        CommandView::Write { noc_id: NocId::Noc1, core: bank.addr, addr: block.offset, data },
    )
    &&& launch == pulled_launch_data(
        workload.data@.symbols,
        bank,
        block.offset,
        data.len() as int,
        binary.len() as int,
    )
}

/// A workload was put into DRAM, or no bank had room for it.
pub open spec fn staged(
    free_before: Seq<Map<usize, usize>>,
    free_after: Seq<Map<usize, usize>>,
    commands_before: Seq<CommandView>,
    commands_after: Seq<CommandView>,
    banks: Seq<Tile>,
    workload: Workload,
    launch: Option<LaunchData>,
) -> bool {
    match launch {
        Some(launch) => exists|block: Allocation| #[trigger]
            staged_at(
                free_before,
                free_after,
                commands_before,
                commands_after,
                banks,
                workload,
                launch,
                block,
            ),
        None => {
            let data = packed(
                workload::binary_of(workload.data@.writes),
                workload.data@.relocations,
            );
            &&& free_after == free_before
            &&& commands_after == commands_before
            &&& forall|bank: int|
                0 <= bank < free_before.len() ==> dram_allocator::full(
                    #[trigger] free_before[bank],
                    data.len() as usize,
                    WORKLOAD_ALIGN,
                )
        },
    }
}

/// The first `count` relocations that stand in `bytes`, one behind the other.
pub open spec fn read_relocations(bytes: Seq<u8>, count: int) -> Option<
    Seq<relocate::KernelRelocation>,
>
    decreases count,
{
    if count <= 0 {
        Some(seq![])
    } else {
        match wire::read_relocation(bytes) {
            Some((relocation, len)) => match read_relocations(bytes.skip(len), count - 1) {
                Some(rest) => Some(seq![relocation] + rest),
                None => None,
            },
            None => None,
        }
    }
}

/// The relocations as they are applied.
pub open spec fn applied_all(relocations: Seq<loader::RelocationView>) -> Seq<
    relocate::KernelRelocation,
> {
    relocations.map_values(|relocation: loader::RelocationView| relocation.applied())
}

proof fn lemma_wire_of_first(relocations: Seq<loader::RelocationView>)
    requires
        relocations.len() > 0,
    ensures
        relocations_wire(relocations) == wire::relocation_wire(relocations[0].applied())
            + relocations_wire(relocations.skip(1)),
    decreases relocations.len(),
{
    let shorter = relocations.drop_last();
    let first = wire::relocation_wire(relocations[0].applied());
    let last = wire::relocation_wire(relocations.last().applied());
    if relocations.len() == 1 {
        assert(relocations_wire(shorter) =~= seq![]);
        assert(relocations_wire(relocations.skip(1)) =~= seq![]);
        assert(relocations_wire(relocations) =~= first + relocations_wire(relocations.skip(1)));
    } else {
        lemma_wire_of_first(shorter);
        assert(relocations.skip(1).drop_last() =~= shorter.skip(1));
        assert(relocations_wire(relocations) =~= first + relocations_wire(relocations.skip(1)));
    }
}

/// The firmware reads the relocations that the host wrote, in their order.
pub proof fn packed_relocations_read_back(
    relocations: Seq<loader::RelocationView>,
    rest: Seq<u8>,
)
    ensures
        read_relocations(relocations_wire(relocations) + rest, relocations.len() as int) == Some(
            applied_all(relocations),
        ),
    decreases relocations.len(),
{
    if relocations.len() > 0 {
        let first = wire::relocation_wire(relocations[0].applied());
        let others = relocations_wire(relocations.skip(1));
        lemma_wire_of_first(relocations);
        wire::relocations_read_back(relocations[0].applied(), others + rest);
        assert(relocations_wire(relocations) + rest =~= first + (others + rest));
        assert((first + (others + rest)).skip(first.len() as int) =~= others + rest);
        packed_relocations_read_back(relocations.skip(1), rest);
        assert(applied_all(relocations) =~= seq![relocations[0].applied()] + applied_all(
            relocations.skip(1),
        ));
    } else {
        assert(applied_all(relocations) =~= seq![]);
    }
}

/// In DRAM the kernel comes first, then the number of its relocations, and these behind it.
pub proof fn packed_workloads_come_apart(
    binary: Seq<u8>,
    relocations: Seq<loader::RelocationView>,
)
    requires
        relocations.len() <= u64::MAX,
    ensures
        ({
            let data = packed(binary, relocations);
            let size = binary.len() as int;
            &&& data.take(size) == binary
            &&& data.subrange(size, size + 8) == bytes::le64(relocations.len() as u64)
            &&& read_relocations(data.skip(size + 8), relocations.len() as int) == Some(
                applied_all(relocations),
            )
        }),
{
    let data = packed(binary, relocations);
    let size = binary.len() as int;
    assert(data.take(size) =~= binary);
    assert(data.subrange(size, size + 8) =~= bytes::le64(relocations.len() as u64));
    assert(data.skip(size + 8) =~= relocations_wire(relocations) + seq![]);
    packed_relocations_read_back(relocations, seq![]);
}

/// What a core makes of a kernel's bytes that applies these relocations one after the other.
pub open spec fn relocated_in_order(
    relocations: Seq<relocate::KernelRelocation>,
    base_addr: u64,
    binary: Seq<u8>,
) -> Seq<u8>
    decreases relocations.len(),
{
    if relocations.len() == 0 {
        binary
    } else {
        relocations.last().relocated_binary(
            base_addr,
            relocated_in_order(relocations.drop_last(), base_addr, binary),
        )
    }
}

/// A core that pulls a workload and applies the relocations that it finds behind the kernel holds
/// the bytes that would have been pushed to it.
pub proof fn pulled_workloads_are_what_is_pushed(
    binary: Seq<u8>,
    relocations: Seq<loader::RelocationView>,
    base_addr: u64,
)
    requires
        relocations.len() <= u64::MAX,
    ensures
        ({
            let data = packed(binary, relocations);
            let size = binary.len() as int;
            &&& read_relocations(data.skip(size + 8), relocations.len() as int) matches Some(read)
            &&& relocated_in_order(read, base_addr, data.take(size)) == push::relocated_all(
                relocations,
                base_addr,
                binary,
            )
        }),
{
    packed_workloads_come_apart(binary, relocations);
    lemma_same_order(relocations, base_addr, binary);
}

proof fn lemma_same_order(
    relocations: Seq<loader::RelocationView>,
    base_addr: u64,
    binary: Seq<u8>,
)
    ensures
        relocated_in_order(applied_all(relocations), base_addr, binary) == push::relocated_all(
            relocations,
            base_addr,
            binary,
        ),
    decreases relocations.len(),
{
    if relocations.len() > 0 {
        lemma_same_order(relocations.drop_last(), base_addr, binary);
        assert(applied_all(relocations).drop_last() =~= applied_all(relocations.drop_last()));
    }
}

/// The search after `looks` looks, where `slots[k]` was read at the look `k`.
pub open spec fn search_after(tensix_count: int, slots: Seq<Seq<u8>>, looks: int) -> JobSearch
    decreases looks,
{
    if looks <= 0 {
        JobSearch::Look { index: 0 }
    } else {
        search_after(tensix_count, slots, looks - 1).follows(
            tensix_count,
            wire::read_request(slots[looks - 1]),
        )
    }
}

/// A Tensix that asked for work is found with what it asked for, once the search comes to it.
pub proof fn a_request_is_found(
    tensix_count: int,
    slots: Seq<Seq<u8>>,
    looks: int,
    index: usize,
    request: LaunchRequest,
    rest: Seq<u8>,
)
    requires
        0 <= looks < slots.len(),
        search_after(tensix_count, slots, looks) == (JobSearch::Look { index }),
        slots[looks] == wire::request_wire(request) + rest,
    ensures
        search_after(tensix_count, slots, looks + 1) == (JobSearch::Asked { index, request }),
{
    wire::requests_read_back(request, rest);
}

} // verus!
