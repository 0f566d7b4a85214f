//! What cargo is asked to build for a chip.

use vstd::prelude::*;

use crate::chip::Arch;

verus! {

/// Where compiled crates are kept between builds.
pub enum CacheEnable {
    Disabled,
    /// In a directory of the caller's.
    CustomDir(String),
}

/// A change to a target's definition.
pub enum Rewrite {
    /// Replace what stands from `start` up to `end`.
    Replace { start: String, end: String, replace: String },
    /// Add at the end.
    Add { value: String },
}

/// A target that comes with the tool chain.
#[derive(Clone, Copy, Debug, PartialEq, Eq, Structural)]
pub enum StandardTarget {
    Grayskull,
    Wormhole,
    Blackhole,
}

impl StandardTarget {
    /// The target of a known generation.
    pub open spec fn of(arch: Arch) -> StandardTarget {
        match arch {
            Arch::Grayskull => StandardTarget::Grayskull,
            Arch::Wormhole => StandardTarget::Wormhole,
            _ => StandardTarget::Blackhole,
        }
    }

    /// The target of a known generation.
    pub fn for_arch(arch: Arch) -> (target: StandardTarget)
        requires
            !(arch is Unknown),
        ensures
            target == StandardTarget::of(arch),
    {
        match arch {
            Arch::Grayskull => StandardTarget::Grayskull,
            Arch::Wormhole => StandardTarget::Wormhole,
            _ => StandardTarget::Blackhole,
        }
    }

    pub open spec fn name_spec(self) -> Seq<char> {
        match self {
            StandardTarget::Grayskull => "grayskull"@,
            StandardTarget::Wormhole => "wormhole"@,
            StandardTarget::Blackhole => "blackhole"@,
        }
    }

    pub fn name(self) -> (name: String)
        ensures
            name@ == self.name_spec(),
    {
        let text = match self {
            StandardTarget::Grayskull => "grayskull",
            StandardTarget::Wormhole => "wormhole",
            StandardTarget::Blackhole => "blackhole",
        };
        text.to_string()
    }
}

/// What to compile for.
pub enum TensixTarget {
    Standard(StandardTarget),
    /// A standard target with changes and a linker script of its own.
    Custom {
        name: String,
        standard: StandardTarget,
        rewrites: Vec<Rewrite>,
        linker_script: String,
    },
}

/// Whether `target` is the target for `arch`, with a linker script and changes where given.
pub open spec fn targets(
    target: TensixTarget,
    arch: Arch,
    custom_link: Option<(String, Vec<Rewrite>)>,
) -> bool {
    match custom_link {
        None => target == TensixTarget::Standard(StandardTarget::of(arch)),
        Some((link, changes)) => target matches TensixTarget::Custom {
            name,
            standard,
            rewrites,
            linker_script,
        } && {
            &&& name@ == StandardTarget::of(arch).name_spec() + "-custom"@
            &&& standard == StandardTarget::of(arch)
            &&& rewrites == changes
            &&& linker_script == link
        },
    }
}

impl TensixTarget {
    /// The target for a generation: the standard one, or one of its own where a linker script and
    /// changes are given.
    pub fn new(arch: Arch, custom_link: Option<(String, Vec<Rewrite>)>) -> (target: Self)
        requires
            !(arch is Unknown),
        ensures
            targets(target, arch, custom_link),
    {
        let standard = StandardTarget::for_arch(arch);
        match custom_link {
            Some((linker_script, rewrites)) => {
                let mut name = standard.name();
                name.append("-custom");
                TensixTarget::Custom { name, standard, rewrites, linker_script }
            },
            None => TensixTarget::Standard(standard),
        }
    }
}

/// A cargo profile.
pub enum CargoProfile {
    Debug,
    Release,
    Other(String),
}

impl CargoProfile {
    /// Whether this is the profile that `name` names.
    pub open spec fn is_named(self, name: Seq<char>) -> bool {
        if name == "debug"@ {
            self == CargoProfile::Debug
        } else if name == "release"@ {
            self == CargoProfile::Release
        } else {
            self matches CargoProfile::Other(other) && other@ == name
        }
    }

    /// The profile that `name` names.
    pub fn named(name: &String) -> (profile: Self)
        ensures
            profile.is_named(name@),
    {
        if *name == "debug".to_string() {
            CargoProfile::Debug
        } else if *name == "release".to_string() {
            CargoProfile::Release
        } else {
            CargoProfile::Other(name.clone())
        }
    }
}

/// How cargo is to build a kernel.
pub struct CargoOptions {
    pub target: TensixTarget,
    pub profile: CargoProfile,
    pub lto: bool,
    pub use_cache: CacheEnable,
    pub verbose: bool,
    pub build_std: bool,
    pub default_features: bool,
    pub stack_probes: bool,
    pub kernel_name: String,
    pub hide_output: bool,
    pub extra_flags: Vec<String>,
}

/// A build: the directory of the crate, and how to build it.
pub struct CargoInvocation {
    pub path: String,
    pub options: CargoOptions,
}

} // verus!
