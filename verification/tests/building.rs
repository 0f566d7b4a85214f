use ttx_runtime::builder::{CacheEnable, CargoProfile, Rewrite, StandardTarget, TensixTarget};
use ttx_runtime::chip::{Arch, Chip, ChipCommand, NocAddress, NocId, Tile};
use ttx_runtime::elf::ElfImage;
use ttx_runtime::kernel::KernelData;
use ttx_runtime::load_options;
use ttx_runtime::load_options::LoadOptions;
use ttx_runtime::loader;
use ttx_runtime::loader::LoadError;
use ttx_runtime::quick_load::{LoadStep, QuickLoad};

fn empty_kernel() -> KernelData {
    let image = ElfImage {
        entry: 0,
        segments: Vec::new(),
        symbols: Vec::new(),
        dynamic_symbols: Vec::new(),
        dynamic_rels: Vec::new(),
        dynamic_relas: Vec::new(),
        plt_relocations: Vec::new(),
    };
    loader::load_image(&image, &[]).ok().unwrap()
}

#[test]
fn options_start_from_defaults() {
    let options = LoadOptions::new("/base");
    assert_eq!(options.base_path, "/base");
    assert_eq!(options.path, "");
    assert!(!options.no_wait && !options.verbose && !options.hide_output);
    assert!(matches!(options.use_cache, CacheEnable::Disabled));
    assert_eq!(options.noc_id, NocId::Noc0);
    assert!(!options.build_options.build_std && !options.build_options.lto);
    assert_eq!(options.build_options.profile, "release");
    assert!(options.build_options.default_features);
    assert!(!options.build_options.stack_probes);
    assert_eq!(LoadOptions::new_without_base().base_path, "");
}

#[test]
fn options_are_set_one_by_one() {
    let options = LoadOptions::new("/base")
        .no_wait(true)
        .verbose(true)
        .build_std(true)
        .use_cache(CacheEnable::CustomDir("/cache".to_string()))
        .hide_output()
        .lto(true)
        .profile("debug")
        .default_features(false)
        .stack_probes(true)
        .noc_id(NocId::Noc1);
    assert!(options.no_wait && options.verbose && options.hide_output);
    assert!(matches!(&options.use_cache, CacheEnable::CustomDir(dir) if dir == "/cache"));
    assert_eq!(options.noc_id, NocId::Noc1);
    assert!(options.build_options.build_std && options.build_options.lto);
    assert_eq!(options.build_options.profile, "debug");
    assert!(!options.build_options.default_features);
    assert!(options.build_options.stack_probes);
    assert_eq!(options.base_path, "/base");
}

#[test]
fn relative_paths_are_below_the_base() {
    assert_eq!(LoadOptions::new("/base").path("kernel").path, "/base/kernel");
    assert_eq!(LoadOptions::new("/base").path("/kernel").path, "/kernel");
    assert_eq!(LoadOptions::new("").path("kernel").path, "kernel");
    assert_eq!(LoadOptions::new("/base/").path("a/kernel").path, "/base/a/kernel");
    assert_eq!(LoadOptions::new("").path("/kernel").path, "/kernel");
    assert_eq!(LoadOptions::new("/base").path("").path, "/base/");
    assert_eq!(LoadOptions::new("/base/").path("").path, "/base/");
    assert_eq!(LoadOptions::new("").path("").path, "");
    assert_eq!(LoadOptions::new("/base").path(".hidden").path, "/base/.hidden");
    let options = LoadOptions::new("/base").with_path("a", false, "b".to_string());
    assert_eq!(options.path, "b");
    let options = LoadOptions::new("/base").with_path("a", true, "b".to_string());
    assert_eq!(options.path, "a");
}

#[test]
fn a_build_is_what_the_options_ask_for() {
    let build = load_options::kernel_elf_build(
        "test",
        Arch::Wormhole,
        LoadOptions::new("/base").hide_output(),
        None,
        Vec::new(),
    );
    assert_eq!(build.path, "/base");
    assert!(matches!(build.options.target, TensixTarget::Standard(StandardTarget::Wormhole)));
    assert!(matches!(build.options.profile, CargoProfile::Release));
    assert_eq!(build.options.kernel_name, "test");
    assert!(build.options.hide_output && build.options.default_features);
    assert!(!build.options.lto && !build.options.verbose && !build.options.build_std);
    assert!(!build.options.stack_probes);
    assert!(build.options.extra_flags.is_empty());

    let build = load_options::kernel_elf_build(
        "test",
        Arch::Grayskull,
        LoadOptions::new("/base").path("/other").profile("debug").lto(true),
        Some(("SECTIONS".to_string(), vec![Rewrite::Add { value: "x".to_string() }])),
        vec!["-v".to_string()],
    );
    assert_eq!(build.path, "/other");
    assert!(matches!(build.options.profile, CargoProfile::Debug));
    assert!(build.options.lto);
    assert_eq!(build.options.extra_flags, ["-v"]);
    match build.options.target {
        TensixTarget::Custom { name, standard, rewrites, linker_script } => {
            assert_eq!(name, "grayskull-custom");
            assert_eq!(standard, StandardTarget::Grayskull);
            assert_eq!(rewrites.len(), 1);
            assert_eq!(linker_script, "SECTIONS");
        }
        TensixTarget::Standard(_) => panic!("a custom target was asked for"),
    }
}

#[test]
fn profiles_and_generations_have_names() {
    let named = |name: &str| CargoProfile::named(&name.to_string());
    assert!(matches!(named("debug"), CargoProfile::Debug));
    assert!(matches!(named("release"), CargoProfile::Release));
    assert!(matches!(named("Release"), CargoProfile::Other(other) if other == "Release"));
    assert_eq!(Arch::Grayskull.name(), "Grayskull");
    assert_eq!(Arch::Wormhole.name(), "Wormhole");
    assert_eq!(Arch::Blackhole.name(), "Blackhole");
    assert!(Arch::Grayskull.is_grayskull() && !Arch::Unknown(7).is_grayskull());
    assert_eq!(StandardTarget::for_arch(Arch::Blackhole).name(), "blackhole");
    assert_eq!(StandardTarget::for_arch(Arch::Wormhole).name(), "wormhole");
}

#[test]
fn a_quick_load_prepares_and_loads() {
    let core = Tile { addr: NocAddress { n0: (1, 2), n1: (3, 4) } };
    let options = LoadOptions::new("/base").no_wait(true).noc_id(NocId::Noc1);
    let (load, build) = QuickLoad::begin("blink", Arch::Blackhole, core, options);
    assert_eq!(build.options.kernel_name, "blink");
    assert!(matches!(build.options.target, TensixTarget::Standard(StandardTarget::Blackhole)));
    assert_eq!(load.core, core);
    assert_eq!(load.noc_id, NocId::Noc1);
    assert!(load.no_wait);

    let mut chip = Chip::new();
    load.prepare(&mut chip);
    let commands = chip.take_commands();
    assert_eq!(commands.len(), 4);
    assert!(matches!(commands[0], ChipCommand::Write32 { value: 0x4_7800, .. }));
    assert!(matches!(commands[1], ChipCommand::Expect32 { value: 0x4_7800, .. }));
    assert_eq!(commands[2..], [ChipCommand::DeassertRiscvReset, ChipCommand::GoBusy]);

    assert!(matches!(load.load(&mut chip, true, b"nothing"), Err(LoadError::Malformed)));
    assert_eq!(chip.take_commands(), []);
}

#[test]
fn a_quick_load_waits_as_it_is_told() {
    let core = Tile { addr: NocAddress { n0: (1, 2), n1: (3, 4) } };
    let waiting = QuickLoad { core, noc_id: NocId::Noc0, no_wait: false };
    let hasty = QuickLoad { core, noc_id: NocId::Noc0, no_wait: true };
    let mut kernel = empty_kernel();

    assert_eq!(waiting.next(LoadStep::PrintState, &kernel, false), LoadStep::WaitForCompletion);
    assert_eq!(hasty.next(LoadStep::PrintState, &kernel, false), LoadStep::Return);

    kernel.bin.start_sync = Some(4);
    assert_eq!(waiting.next(LoadStep::PrintState, &kernel, false), LoadStep::AskStarted);
    assert_eq!(waiting.next(LoadStep::AskStarted, &kernel, false), LoadStep::AskComplete);
    assert_eq!(waiting.next(LoadStep::AskComplete, &kernel, false), LoadStep::PrintStateDiff);
    assert_eq!(waiting.next(LoadStep::AskComplete, &kernel, true), LoadStep::Pause);
    assert_eq!(waiting.next(LoadStep::PrintStateDiff, &kernel, false), LoadStep::Pause);
    assert_eq!(waiting.next(LoadStep::Pause, &kernel, false), LoadStep::AskStarted);
    assert_eq!(waiting.next(LoadStep::AskStarted, &kernel, true), LoadStep::WaitForCompletion);
    assert_eq!(hasty.next(LoadStep::AskStarted, &kernel, true), LoadStep::Return);
    assert_eq!(waiting.next(LoadStep::WaitForCompletion, &kernel, false), LoadStep::Return);
}
