//! How a kernel is built and loaded.

use vstd::prelude::*;

use crate::builder;
use crate::builder::{CacheEnable, CargoInvocation, CargoOptions, CargoProfile, Rewrite, TensixTarget};
use crate::chip::{Arch, NocId};
use crate::paths;

verus! {

/// What a build depends on besides the sources.
#[derive(Clone, Debug, PartialEq, Eq, Hash)]
pub struct BuildOptions {
    pub build_std: bool,
    pub lto: bool,
    pub profile: String,
    pub default_features: bool,
    pub stack_probes: bool,
}

/// How a kernel is built and loaded.
pub struct LoadOptions {
    /// Return as soon as the kernel has started.
    pub no_wait: bool,
    pub verbose: bool,
    pub use_cache: CacheEnable,
    /// The kernel's directory; where it is empty, `base_path` is.
    pub path: String,
    pub base_path: String,
    pub hide_output: bool,
    pub noc_id: NocId,
    pub build_options: BuildOptions,
}

impl LoadOptions {
    /// Whether these are the options to start from, below `base_path`.
    pub open spec fn is_default(&self, base_path: Seq<char>) -> bool {
        &&& !self.no_wait
        &&& !self.verbose
        &&& self.use_cache == CacheEnable::Disabled
        &&& self.path@ == ""@
        &&& self.base_path@ == base_path
        &&& !self.hide_output
        &&& self.noc_id == NocId::Noc0
        &&& !self.build_options.build_std
        &&& !self.build_options.lto
        &&& self.build_options.profile@ == "release"@
        &&& self.build_options.default_features
        &&& !self.build_options.stack_probes
    }

    pub fn new_without_base() -> (options: Self)
        ensures
            options.is_default(""@),
    {
        Self::new("")
    }

    pub fn new(base_path: &str) -> (options: Self)
        ensures
            options.is_default(base_path@),
    {
        LoadOptions {
            hide_output: false,
            verbose: false,
            use_cache: CacheEnable::Disabled,
            base_path: base_path.to_string(),
            path: "".to_string(),
            no_wait: false,
            noc_id: NocId::Noc0,
            build_options: BuildOptions {
                lto: false,
                build_std: false,
                profile: "release".to_string(),
                default_features: true,
                stack_probes: false,
            },
        }
    }

    pub fn no_wait(self, no_wait: bool) -> (options: Self)
        ensures
            options == (LoadOptions { no_wait, ..self }),
    {
        LoadOptions { no_wait, ..self }
    }

    pub fn verbose(self, verbose: bool) -> (options: Self)
        ensures
            options == (LoadOptions { verbose, ..self }),
    {
        LoadOptions { verbose, ..self }
    }

    pub fn build_std(self, build_std: bool) -> (options: Self)
        ensures
            options == (LoadOptions {
                build_options: BuildOptions { build_std, ..self.build_options },
                ..self
            }),
    {
        LoadOptions { build_options: BuildOptions { build_std, ..self.build_options }, ..self }
    }

    pub fn use_cache(self, cache: CacheEnable) -> (options: Self)
        ensures
            options == (LoadOptions { use_cache: cache, ..self }),
    {
        LoadOptions { use_cache: cache, ..self }
    }

    pub fn hide_output(self) -> (options: Self)
        ensures
            options == (LoadOptions { hide_output: true, ..self }),
    {
        LoadOptions { hide_output: true, ..self }
    }

    pub fn lto(self, lto: bool) -> (options: Self)
        ensures
            options == (LoadOptions {
                build_options: BuildOptions { lto, ..self.build_options },
                ..self
            }),
    {
        LoadOptions { build_options: BuildOptions { lto, ..self.build_options }, ..self }
    }

    /// Sets the kernel's directory. A relative path is taken below the base path.
    ///
    /// What a path with a drive or another prefix leads to is the platform's matter.
    pub fn path(self, path: &str) -> (options: Self)
        ensures
            options == (LoadOptions { path: options.path, ..self }),
            paths::leads_to(self.base_path@, path@, options.path@),
    {
        let absolute = paths::path_is_absolute(path);
        let joined = paths::join_paths(self.base_path.as_str(), path);
        self.with_path(path, absolute, joined)
    }

    /// Sets the kernel's directory to `path`, or to `joined` where `path` is not absolute.
    pub fn with_path(self, path: &str, absolute: bool, joined: String) -> (options: Self)
        ensures
            options == (LoadOptions { path: options.path, ..self }),
            options.path@ == if absolute {
                path@
            } else {
                joined@
            },
    {
        let path = if absolute {
            path.to_string()
        } else {
            joined
        };
        LoadOptions { path, ..self }
    }

    pub fn profile(self, profile: &str) -> (options: Self)
        ensures
            options == (LoadOptions {
                build_options: BuildOptions {
                    profile: options.build_options.profile,
                    ..self.build_options
                },
                ..self
            }),
            options.build_options.profile@ == profile@,
    {
        LoadOptions { build_options: BuildOptions { profile: profile.to_string(), ..self.build_options }, ..self }
    }

    pub fn default_features(self, df: bool) -> (options: Self)
        ensures
            options == (LoadOptions {
                build_options: BuildOptions { default_features: df, ..self.build_options },
                ..self
            }),
    {
        LoadOptions { build_options: BuildOptions { default_features: df, ..self.build_options }, ..self }
    }

    pub fn stack_probes(self, probe: bool) -> (options: Self)
        ensures
            options == (LoadOptions {
                build_options: BuildOptions { stack_probes: probe, ..self.build_options },
                ..self
            }),
    {
        LoadOptions { build_options: BuildOptions { stack_probes: probe, ..self.build_options }, ..self }
    }

    pub fn noc_id(self, noc_id: NocId) -> (options: Self)
        ensures
            options == (LoadOptions { noc_id, ..self }),
    {
        LoadOptions { noc_id, ..self }
    }
}

/// Whether `invocation` is the build of the kernel `name` that `options` ask for.
pub open spec fn builds_kernel(
    invocation: CargoInvocation,
    name: Seq<char>,
    options: LoadOptions,
) -> bool {
    &&& invocation.path@ == if options.path@.len() == 0 {
        options.base_path@
    } else {
        options.path@
    }
    &&& invocation.options.profile.is_named(options.build_options.profile@)
    &&& invocation.options.lto == options.build_options.lto
    &&& invocation.options.use_cache == options.use_cache
    &&& invocation.options.verbose == options.verbose
    &&& invocation.options.build_std == options.build_options.build_std
    &&& invocation.options.default_features == options.build_options.default_features
    &&& invocation.options.stack_probes == options.build_options.stack_probes
    &&& invocation.options.kernel_name@ == name
    &&& invocation.options.hide_output == options.hide_output
}

/// The build of a kernel's ELF file.
pub fn kernel_elf_build(
    name: &str,
    arch: Arch,
    options: LoadOptions,
    custom_link: Option<(String, Vec<Rewrite>)>,
    extra_flags: Vec<String>,
) -> (invocation: CargoInvocation)
    requires
        !(arch is Unknown),
    ensures
        builds_kernel(invocation, name@, options),
        builder::targets(invocation.options.target, arch, custom_link),
        invocation.options.extra_flags == extra_flags,
{
    let target = TensixTarget::new(arch, custom_link);
    let profile = CargoProfile::named(&options.build_options.profile);
    proof {
        reveal_strlit("");
        if options.path@.len() == 0 {
            assert(options.path@ =~= ""@);
        }
    }
    let path = if options.path == "".to_string() {
        options.base_path
    } else {
        options.path
    };
    CargoInvocation {
        path,
        options: CargoOptions {
            target,
            profile,
            lto: options.build_options.lto,
            use_cache: options.use_cache,
            verbose: options.verbose,
            build_std: options.build_options.build_std,
            default_features: options.build_options.default_features,
            stack_probes: options.build_options.stack_probes,
            kernel_name: name.to_string(),
            hide_output: options.hide_output,
            extra_flags,
        },
    }
}

} // verus!
