//! Firmware: what runs on every Tensix and launches workloads there.

use vstd::prelude::*;

use crate::builder;
use crate::builder::{CacheEnable, CargoInvocation, Rewrite};
use crate::bytes;
use crate::chip::Arch;
use crate::kernel_cache::KernelKey;
use crate::launch_data::CoreLaunchData;
use crate::load_options;
use crate::load_options::LoadOptions;
use crate::symbols::SymbolTable;
use crate::workload::{SourceFile, WorkloadBuilder};

pub mod common_gen;
pub mod defmt;
pub mod dram_pull;
pub mod push;

verus! {

/// What the build of a firmware takes.
pub struct FirmwareBuild {
    pub name: String,
    pub arch: Arch,
    pub files: Vec<SourceFile>,
    pub options: LoadOptions,
    pub link_script: String,
    pub extra_flags: Vec<String>,
}

/// The file of the linker script, for a known generation.
pub open spec fn link_script_name(arch: Arch) -> Seq<char> {
    match arch {
        Arch::Grayskull => "grayskull.x"@,
        Arch::Wormhole => "wormhole.x"@,
        _ => "blackhole.x"@,
    }
}

/// The file of the linker script, for a known generation.
pub fn link_script_file(arch: Arch) -> (name: String)
    requires
        !(arch is Unknown),
    ensures
        name@ == link_script_name(arch),
{
    let text = match arch {
        Arch::Grayskull => "grayskull.x",
        Arch::Wormhole => "wormhole.x",
        _ => "blackhole.x",
    };
    text.to_string()
}

/// The options that firmware is built with: the default ones, with compiled crates kept in
/// `cache_dir`.
pub open spec fn firmware_options(options: LoadOptions, cache_dir: Seq<char>) -> bool {
    &&& options.use_cache matches CacheEnable::CustomDir(dir) && dir@ == cache_dir
    &&& (LoadOptions { use_cache: CacheEnable::Disabled, ..options }).is_default(""@)
}

/// The options that firmware is built with.
pub fn options_for_firmware(cache_dir: &str) -> (options: LoadOptions)
    ensures
        firmware_options(options, cache_dir@),
{
    LoadOptions::new_without_base().use_cache(CacheEnable::CustomDir(cache_dir.to_string()))
}

/// What a firmware is known by in the cache.
pub fn firmware_key(name: &str) -> (key: KernelKey)
    ensures
        key matches KernelKey::Name(own) && own@ == name@,
{
    KernelKey::Name(name.to_string())
}

/// What a workload is known by in the cache.
pub fn workload_key(arch: Arch, parameters: WorkloadBuilder) -> (key: KernelKey)
    requires
        !(arch is Unknown),
    ensures
        key matches KernelKey::KernelParameters(generation, builder) && generation@
            == arch.name_spec() && *builder == parameters,
{
    KernelKey::KernelParameters(arch.name(), Box::new(parameters))
}

/// The build of a kernel whose files were written to `dir` by the cache. The options have no base
/// path of their own: the cache's takes its place.
pub fn build_cached(
    kernel_name: &str,
    dir: &str,
    arch: Arch,
    options: LoadOptions,
    custom_link: Option<(String, Vec<Rewrite>)>,
    extra_flags: Vec<String>,
) -> (invocation: CargoInvocation)
    requires
        options.base_path@ == ""@,
        !(arch is Unknown),
    ensures
        exists|placed: LoadOptions|
            placed.base_path@ == dir@ && placed == (LoadOptions {
                base_path: placed.base_path,
                ..options
            }) && #[trigger] load_options::builds_kernel(invocation, kernel_name@, placed),
        builder::targets(invocation.options.target, arch, custom_link),
        invocation.options.extra_flags == extra_flags,
{
    let placed = LoadOptions { base_path: dir.to_string(), ..options };
    let ghost seen = placed;
    let invocation = load_options::kernel_elf_build(
        kernel_name,
        arch,
        placed,
        custom_link,
        extra_flags,
    );
    assert(load_options::builds_kernel(invocation, kernel_name@, seen));
    invocation
}

/// The low 32 bits of a symbol's value.
pub open spec fn symbol32_spec(symbols: Map<Seq<char>, u64>, name: Seq<char>) -> u32 {
    bytes::low32(symbols[name] as int) as u32
}

/// The low 32 bits of a symbol's value.
pub fn symbol32(symbols: &SymbolTable, name: &str) -> (value: u32)
    requires
        symbols@.contains_key(name@),
    ensures
        value == symbol32_spec(symbols@, name@),
{
    let value: u64 = symbols.symbol(name);
    proof {
        bytes::lemma_low32_of_u64(value);
    }
    value as u32
}

/// What a core is told: where it starts, and where its stack is if it gets one of its own.
pub open spec fn core_launch(
    symbols: Map<Seq<char>, u64>,
    entry: Seq<char>,
    stack: Option<Seq<char>>,
) -> CoreLaunchData {
    CoreLaunchData {
        entry: symbol32_spec(symbols, entry),
        stack: match stack {
            Some(name) => Some(symbol32_spec(symbols, name)),
            None => None,
        },
    }
}

/// What a core is told, by the symbols of its entry point and of its stack.
pub fn core_launch_data(symbols: &SymbolTable, entry: &str, stack: Option<&str>) -> (core:
    CoreLaunchData)
    requires
        symbols@.contains_key(entry@),
        stack matches Some(name) ==> symbols@.contains_key(name@),
    ensures
        core == core_launch(
            symbols@,
            entry@,
            match stack {
                Some(name) => Some(name@),
                None => None,
            },
        ),
{
    CoreLaunchData {
        entry: symbol32(symbols, entry),
        stack: match stack {
            Some(name) => Some(symbol32(symbols, name)),
            None => None,
        },
    }
}

/// Whether a workload defines the symbols that launching it takes.
pub open spec fn launchable(symbols: Map<Seq<char>, u64>) -> bool {
    &&& symbols.contains_key("brisc_kmain"@)
    &&& symbols.contains_key("ncrisc_kmain"@)
    &&& symbols.contains_key("trisc0_kmain"@)
    &&& symbols.contains_key("trisc1_kmain"@)
    &&& symbols.contains_key("trisc2_kmain"@)
    &&& symbols.contains_key("___ncrisc_stack_top"@)
    &&& symbols.contains_key("___trisc0_stack_top"@)
    &&& symbols.contains_key("___trisc1_stack_top"@)
    &&& symbols.contains_key("___trisc2_stack_top"@)
    &&& symbols.contains_key("_bss"@)
    &&& symbols.contains_key("_ebss"@)
}

/// Whether a workload defines the symbols that launching it takes.
pub fn is_launchable(symbols: &SymbolTable) -> (yes: bool)
    ensures
        yes == launchable(symbols@),
{
    symbols.get("brisc_kmain").is_some() && symbols.get("ncrisc_kmain").is_some() && symbols.get(
        "trisc0_kmain",
    ).is_some() && symbols.get("trisc1_kmain").is_some() && symbols.get("trisc2_kmain").is_some()
        && symbols.get("___ncrisc_stack_top").is_some() && symbols.get(
        "___trisc0_stack_top",
    ).is_some() && symbols.get("___trisc1_stack_top").is_some() && symbols.get(
        "___trisc2_stack_top",
    ).is_some() && symbols.get("_bss").is_some() && symbols.get("_ebss").is_some()
}

} // verus!
