//! Building kernels, and where they are kept.

use vstd::prelude::*;

use crate::builder;
use crate::builder::{CacheEnable, CargoInvocation, CargoProfile, Rewrite, StandardTarget, TensixTarget};
use crate::chip::Arch;
use crate::firmware;
use crate::firmware::common_gen;
use crate::firmware::defmt;
use crate::firmware::defmt::{LocationInfo, LogLocation};
use crate::kernel_cache;
use crate::kernel_cache::{KernelKey, KeyView};
use crate::launch_data;
use crate::launch_data::{CLaunchData, CoreLaunchData, LaunchData};
use crate::laws::Riscv;
use crate::laws::sources;
use crate::load_options;
use crate::load_options::LoadOptions;
use crate::paths;
use crate::workload;
use crate::workload::WorkloadBuilder;

verus! {

/// A letter in lower case.
pub open spec fn lower_case(c: char) -> char {
    if 'A' <= c <= 'Z' {
        (c as int + 32) as char
    } else {
        c
    }
}

/// The name of a generation, in lower case, begins the names of its target and of its linker scripts.
pub proof fn files_are_named_after_the_generation(arch: Arch)
    requires
        !(arch is Unknown),
    ensures
        ({
            let name = arch.name_spec().map_values(|c: char| lower_case(c));
            &&& StandardTarget::of(arch).name_spec() == name
            &&& firmware::link_script_name(arch) == name + ".x"@
            &&& workload::link_template_name(arch) == name + "-kernel.x"@
        }),
{
    reveal_strlit("Grayskull");
    reveal_strlit("Wormhole");
    reveal_strlit("Blackhole");
    reveal_strlit("grayskull");
    reveal_strlit("wormhole");
    reveal_strlit("blackhole");
    reveal_strlit("grayskull.x");
    reveal_strlit("wormhole.x");
    reveal_strlit("blackhole.x");
    reveal_strlit("grayskull-kernel.x");
    reveal_strlit("wormhole-kernel.x");
    reveal_strlit("blackhole-kernel.x");
    reveal_strlit(".x");
    reveal_strlit("-kernel.x");
    let name = arch.name_spec().map_values(|c: char| lower_case(c));
    assert(StandardTarget::of(arch).name_spec() =~= name);
    assert(firmware::link_script_name(arch) =~= name + ".x"@);
    assert(workload::link_template_name(arch) =~= name + "-kernel.x"@);
}

/// A target with a linker script of its own is the generation's standard one in everything but its
/// name, which continues that of the standard one, and what was given.
pub proof fn custom_targets_change_the_standard_one(
    arch: Arch,
    standard: TensixTarget,
    custom: TensixTarget,
    linker_script: String,
    rewrites: Vec<Rewrite>,
)
    requires
        builder::targets(standard, arch, None),
        builder::targets(custom, arch, Some((linker_script, rewrites))),
    ensures
        standard matches TensixTarget::Standard(target) && {
            &&& custom is Custom
            &&& custom->Custom_standard == target
            &&& custom->linker_script == linker_script
            &&& custom->rewrites == rewrites
            &&& custom->name@.len() > target.name_spec().len()
            &&& custom->name@.take(target.name_spec().len() as int) == target.name_spec()
        },
{
    reveal_strlit("-custom");
    let name = StandardTarget::of(arch).name_spec();
    assert((name + "-custom"@).take(name.len() as int) =~= name);
}

/// Generations have different targets.
pub proof fn generations_have_different_targets(first: Arch, second: Arch)
    requires
        !(first is Unknown),
        !(second is Unknown),
        first != second,
    ensures
        StandardTarget::of(first) != StandardTarget::of(second),
        first.name_spec() != second.name_spec(),
{
    reveal_strlit("Grayskull");
    reveal_strlit("Wormhole");
    reveal_strlit("Blackhole");
    assert("Grayskull"@[0] == 'G' && "Wormhole"@[0] == 'W' && "Blackhole"@[0] == 'B');
}

/// A profile goes by one name: the two that cargo brings along go by theirs, and every other by its
/// own.
pub proof fn profiles_go_by_their_names(profile: CargoProfile, name: Seq<char>)
    requires
        profile.is_named(name),
    ensures
        profile is Debug <==> name == "debug"@,
        profile is Release <==> name == "release"@,
        profile matches CargoProfile::Other(other) ==> other@ == name,
{
    reveal_strlit("debug");
    reveal_strlit("release");
    assert("debug"@[0] != "release"@[0]);
}

/// What can be switched on or off for a build.
pub enum Switch {
    Lto,
    Verbose,
    BuildStd,
    DefaultFeatures,
    StackProbes,
    HideOutput,
}

/// Whether the options ask for something.
pub open spec fn asks_for(options: LoadOptions, switch: Switch) -> bool {
    match switch {
        Switch::Lto => options.build_options.lto,
        Switch::Verbose => options.verbose,
        Switch::BuildStd => options.build_options.build_std,
        Switch::DefaultFeatures => options.build_options.default_features,
        Switch::StackProbes => options.build_options.stack_probes,
        Switch::HideOutput => options.hide_output,
    }
}

/// Whether a build is asked for something.
pub open spec fn is_asked_for(invocation: CargoInvocation, switch: Switch) -> bool {
    match switch {
        Switch::Lto => invocation.options.lto,
        Switch::Verbose => invocation.options.verbose,
        Switch::BuildStd => invocation.options.build_std,
        Switch::DefaultFeatures => invocation.options.default_features,
        Switch::StackProbes => invocation.options.stack_probes,
        Switch::HideOutput => invocation.options.hide_output,
    }
}

/// A build is asked for what its options ask for, in the kernel's own directory or, where none was
/// given, in the base directory.
pub proof fn a_build_is_asked_for_what_the_options_say(
    invocation: CargoInvocation,
    name: Seq<char>,
    options: LoadOptions,
    switch: Switch,
)
    requires
        load_options::builds_kernel(invocation, name, options),
    ensures
        is_asked_for(invocation, switch) == asks_for(options, switch),
        invocation.options.kernel_name@ == name,
        invocation.options.use_cache == options.use_cache,
        options.path@ != ""@ ==> invocation.path@ == options.path@,
        options.path@ == ""@ ==> invocation.path@ == options.base_path@,
        options.build_options.profile@ == "release"@ <==> invocation.options.profile is Release,
        options.build_options.profile@ == "debug"@ <==> invocation.options.profile is Debug,
{
    reveal_strlit("");
    reveal_strlit("debug");
    reveal_strlit("release");
    assert("debug"@[0] != "release"@[0]);
    if options.path@.len() == 0 {
        assert(options.path@ =~= ""@);
    }
}

/// The options to start from ask for a release build of the base directory with default features
/// and for nothing else, and the kernel is waited for.
pub proof fn the_options_to_start_from_ask_for_little(
    options: LoadOptions,
    base_path: Seq<char>,
    switch: Switch,
)
    requires
        options.is_default(base_path),
    ensures
        asks_for(options, switch) <==> switch is DefaultFeatures,
        !options.no_wait,
        options.use_cache is Disabled,
        options.noc_id is Noc0,
        options.path@ == ""@,
        options.base_path@ == base_path,
        options.build_options.profile@ == "release"@,
{
}

/// Firmware is built as kernels are by default, with the compiled crates kept in the given directory
/// and without a base directory.
pub proof fn firmware_is_built_with_a_cache(
    options: LoadOptions,
    cache_dir: Seq<char>,
    switch: Switch,
)
    requires
        firmware::firmware_options(options, cache_dir),
    ensures
        asks_for(options, switch) <==> switch is DefaultFeatures,
        options.use_cache matches CacheEnable::CustomDir(dir) && dir@ == cache_dir,
        options.base_path@ == ""@,
        options.path@ == ""@,
        options.build_options.profile@ == "release"@,
        !options.no_wait,
        options.noc_id is Noc0,
{
}

/// Two workloads with equal keys are equal in the code of every core and in everything else that
/// their kernels depend on, and they are for one generation.
pub proof fn equal_keys_are_of_equal_kernels(
    first: WorkloadBuilder,
    first_arch: String,
    second: WorkloadBuilder,
    second_arch: String,
    core: Riscv,
)
    requires
        KernelKey::KernelParameters(first_arch, Box::new(first))@ == KernelKey::KernelParameters(
            second_arch,
            Box::new(second),
        )@,
    ensures
        first_arch@ == second_arch@,
        sources::code_of(first, core) == sources::code_of(second, core),
        first.global@ == second.global@,
        first.use_local_cache == second.use_local_cache,
        first.available_space == second.available_space,
        first.inputs@.len() == second.inputs@.len(),
        forall|i: int|
            0 <= i < first.inputs@.len() ==> (#[trigger] first.inputs@[i])@ == second.inputs@[i]@,
        first.outputs@.len() == second.outputs@.len(),
        forall|i: int|
            0 <= i < first.outputs@.len() ==> {
                &&& (#[trigger] first.outputs@[i]).name@ == second.outputs@[i].name@
                &&& first.outputs@[i].size == second.outputs@[i].size
                &&& first.outputs@[i].count == second.outputs@[i].count
            },
{
    let inputs = workload::strings(first.inputs@);
    let other_inputs = workload::strings(second.inputs@);
    let outputs = kernel_cache::outputs_view(first.outputs@);
    let other_outputs = kernel_cache::outputs_view(second.outputs@);
    assert(first@ == second@);
    assert(inputs == other_inputs && outputs == other_outputs);
    assert(inputs.len() == first.inputs@.len() && other_inputs.len() == second.inputs@.len());
    assert(outputs.len() == first.outputs@.len() && other_outputs.len() == second.outputs@.len());
    assert forall|i: int| 0 <= i < first.inputs@.len() implies (#[trigger] first.inputs@[i])@
        == second.inputs@[i]@ by {
        assert(inputs[i] == first.inputs@[i]@ && other_inputs[i] == second.inputs@[i]@);
    }
    assert forall|i: int| 0 <= i < first.outputs@.len() implies {
        &&& (#[trigger] first.outputs@[i]).name@ == second.outputs@[i].name@
        &&& first.outputs@[i].size == second.outputs@[i].size
        &&& first.outputs@[i].count == second.outputs@[i].count
    } by {
        assert(outputs[i] == other_outputs[i]);
    }
}

/// A kernel that has a name is found under it. Of others, one that is known by a name gets that name,
/// whatever fresh one is at hand, and one that is known by its parameters gets the fresh one.
pub proof fn kernels_get_the_name_that_is_due(
    names: Map<KeyView, Seq<char>>,
    key: KeyView,
    fresh: Seq<char>,
)
    ensures
        names.contains_key(key) ==> kernel_cache::resolved(names, key, fresh) == names[key],
        !names.contains_key(key) ==> match key {
            KeyView::Name(own) => kernel_cache::resolved(names, key, fresh) == own,
            KeyView::KernelParameters(..) => kernel_cache::resolved(names, key, fresh) == fresh,
        },
        kernel_cache::resolved(Map::empty(), key, fresh) == kernel_cache::first_name(key, fresh),
{
}

/// Of the entries of one kernel in a list the last counts.
pub proof fn the_last_name_of_a_kernel_counts(
    entries: Seq<(KernelKey, String)>,
    i: int,
)
    requires
        0 <= i < entries.len(),
        forall|j: int|
            i < j < entries.len() ==> (#[trigger] entries[j]).0@ != entries[i].0@,
    ensures
        kernel_cache::name_map(entries).contains_key(entries[i].0@),
        kernel_cache::name_map(entries)[entries[i].0@] == entries[i].1@,
    decreases entries.len(),
{
    let rest = entries.drop_last();
    if i < rest.len() {
        assert forall|j: int| i < j < rest.len() implies (#[trigger] rest[j]).0@
            != rest[i].0@ by {
            assert(rest[j] == entries[j]);
        }
        the_last_name_of_a_kernel_counts(rest, i);
        assert(entries[entries.len() - 1].0@ != entries[i].0@);
    }
}

/// Only kernels of a list are known from it.
pub proof fn only_listed_kernels_are_known(entries: Seq<(KernelKey, String)>, key: KeyView)
    requires
        kernel_cache::name_map(entries).contains_key(key),
    ensures
        exists|i: int|
            0 <= i < entries.len() && (#[trigger] entries[i]).0@ == key
                && kernel_cache::name_map(entries)[key] == entries[i].1@,
    decreases entries.len(),
{
    if entries.len() > 0 {
        let rest = entries.drop_last();
        if entries.last().0@ == key {
            assert(entries[entries.len() - 1].0@ == key);
        } else {
            only_listed_kernels_are_known(rest, key);
            let i = choose|i: int|
                0 <= i < rest.len() && (#[trigger] rest[i]).0@ == key
                    && kernel_cache::name_map(rest)[key] == rest[i].1@;
            assert(entries[i].0@ == key);
        }
    }
}

/// What begins the name of a file in a directory.
pub open spec fn directory(dir: Seq<char>) -> Seq<char> {
    if dir.len() == 0 || dir.last() == '/' {
        dir
    } else {
        dir.push('/')
    }
}

/// The sources of a kernel are kept in the directory of the cache's file, there below `src`, in a
/// directory of the kernel's name.
pub proof fn sources_are_kept_next_to_the_cache(
    path: Seq<char>,
    dir: Seq<char>,
    file: Seq<char>,
    name: Seq<char>,
    kept: Option<Seq<char>>,
)
    requires
        kernel_cache::keeps_sources(path, name, kept),
        paths::lies_in(path, dir, file),
        paths::extends_everywhere(name),
    ensures
        kept is Some,
        paths::unified(kept->0) == directory(dir) + "src/"@ + paths::unified(name),
{
    reveal_strlit("src");
    reveal_strlit("src/");
    let src = paths::under(dir, "src"@);
    assert(src =~= directory(dir) + "src"@);
    assert(src.last() == 'c');
    assert(paths::under(src, paths::unified(name)) =~= directory(dir) + "src/"@ + paths::unified(
        name,
    ));
}

/// The crate that host and firmware share lies in the directory that the given crate's directory is
/// in.
pub proof fn the_shared_crate_lies_next_door(
    manifest_dir: Seq<char>,
    dir: Seq<char>,
    name: Seq<char>,
    located: Option<Seq<char>>,
)
    requires
        common_gen::holds_shared(manifest_dir, located),
        paths::lies_in(manifest_dir, dir, name),
    ensures
        located is Some,
        paths::unified(located->0) == directory(dir) + "runtime-shared"@,
{
    reveal_strlit("runtime-shared");
    assert(paths::relative_everywhere("runtime-shared"@));
    assert(paths::unified("runtime-shared"@) =~= "runtime-shared"@);
    assert(paths::under(dir, "runtime-shared"@) =~= directory(dir) + "runtime-shared"@);
}

/// The crate of the relocations lies one directory further up.
pub proof fn the_relocations_lie_one_directory_up(
    manifest_dir: Seq<char>,
    dir: Seq<char>,
    name: Seq<char>,
    outer: Seq<char>,
    part: Seq<char>,
    located: Option<Seq<char>>,
)
    requires
        common_gen::holds_relocations(manifest_dir, located),
        paths::lies_in(manifest_dir, dir, name),
        paths::lies_in(dir, outer, part),
    ensures
        located is Some,
        paths::unified(located->0) == directory(outer) + "relocate"@,
{
    reveal_strlit("relocate");
    assert(paths::under(outer, "relocate"@) =~= directory(outer) + "relocate"@);
}

/// A frame is described by the line and the module of its place, and by its file: as seen from the
/// current directory where it can be, else in full.
pub proof fn a_frame_is_described_by_its_place(
    info: LocationInfo,
    place: LogLocation,
    relative: Option<Seq<char>>,
)
    requires
        defmt::describes(info, place, relative),
        place.line <= u32::MAX,
    ensures
        info.0 is Some,
        relative is Some ==> info.0->0@ == relative->0,
        relative is None ==> info.0->0@ == place.file@,
        info.1 is Some && info.1->0 == place.line,
        info.2 is Some && info.2->0@ == place.module@,
{
}

/// What a core is told of a job that is pulled.
pub open spec fn pulled_core(job: LaunchData, core: Riscv) -> CoreLaunchData {
    match core {
        Riscv::Brisc => job.brisc,
        Riscv::Ncrisc => job.ncrisc,
        Riscv::Trisc0 => job.trisc0,
        Riscv::Trisc1 => job.trisc1,
        Riscv::Trisc2 => job.trisc2,
    }
}

/// What a core is told of a job that is pushed.
pub open spec fn pushed_core(job: CLaunchData, core: Riscv) -> CoreLaunchData {
    match core {
        Riscv::Brisc => job.brisc,
        Riscv::Ncrisc => job.ncrisc,
        Riscv::Trisc0 => job.trisc0,
        Riscv::Trisc1 => job.trisc1,
        Riscv::Trisc2 => job.trisc2,
    }
}

/// Where there is no job, nothing says that there is one: no flag is set, no core is told where to
/// start, nothing is to be zeroed and nothing to be loaded.
pub proof fn no_job_says_nothing(core: Riscv)
    ensures
        ({
            let pulled = launch_data::no_launch_data();
            let pushed = launch_data::no_c_launch_data();
            &&& pulled.flag == 0 && pushed.flag == 0
            &&& pulled_core(pulled, core).entry == 0 && pulled_core(pulled, core).stack is None
            &&& pushed_core(pushed, core).entry == 0 && pushed_core(pushed, core).stack is None
            &&& pulled.bss == 0 && pulled.ebss == 0 && pushed.bss == 0 && pushed.ebss == 0
            &&& pulled.workload_bank == (0u8, 0u8) && pulled.data_bank == (0u8, 0u8)
            &&& pulled.workload_bank_offset == 0 && pulled.workload_bank_size == 0
            &&& pulled.kernel_size == 0 && pulled.data_bank_offset == 0
        }),
{
}

/// Asking for the name of a kernel changes what is known of that kernel and of no other: from then on
/// the name is known. It is the one that was known, else the kernel's own, else a random one, which
/// has hyphens where a UUID has them.
pub proof fn asking_for_a_name_makes_it_known(
    before: Map<KeyView, Seq<char>>,
    after: Map<KeyView, Seq<char>>,
    key: KeyView,
    name: Seq<char>,
    other: KeyView,
)
    requires
        kernel_cache::named(before, after, key, name),
    ensures
        after.contains_key(key) && after[key] == name,
        other != key ==> (after.contains_key(other) <==> before.contains_key(other)),
        other != key && before.contains_key(other) ==> after[other] == before[other],
        before.contains_key(key) ==> name == before[key],
        !before.contains_key(key) ==> is_new_name(key, name),
{
}

/// Whether a name is one that a kernel can get that has none.
pub open spec fn is_new_name(key: KeyView, name: Seq<char>) -> bool {
    match key {
        KeyView::Name(own) => name == own,
        KeyView::KernelParameters(..) => {
            &&& name.len() == 36
            &&& name[8] == '-' && name[13] == '-' && name[18] == '-' && name[23] == '-'
            &&& name[14] == '4'
        },
    }
}

/// Where no names are known, a kernel gets a new one.
pub proof fn without_names_a_kernel_gets_a_new_one(key: KeyView, name: Seq<char>)
    requires
        kernel_cache::first_named(key, name),
    ensures
        is_new_name(key, name),
{
}

/// A path as seen from a directory leads back to it from there.
pub proof fn a_path_seen_from_a_directory_leads_back(path: Seq<char>, dir: Seq<char>)
    ensures
        match paths::seen_from(path, dir) {
            Some(relative) => path == if relative.len() == 0 && path == dir {
                dir
            } else {
                dir.push('/') + relative
            },
            None => path != dir && !dir.push('/').is_prefix_of(path),
        },
{
    let front = dir.push('/');
    if front.is_prefix_of(path) {
        assert(path.take(front.len() as int) =~= front);
        assert(front[dir.len() as int] == '/');
        assert(path[dir.len() as int] == path.take(front.len() as int)[dir.len() as int]);
        assert(path.take(dir.len() as int) =~= front.take(dir.len() as int));
        assert(front.take(dir.len() as int) =~= dir);
    }
    if path != dir && paths::seen_from(path, dir) is Some {
        assert(path =~= front + path.skip(dir.len() as int + 1)) by {
            assert forall|i: int| 0 <= i < dir.len() implies path[i] == dir[i] by {
                assert(path.take(dir.len() as int)[i] == dir[i]);
            }
        }
    }
}

} // verus!
