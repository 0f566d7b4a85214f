//! Building a kernel, loading it into one Tensix, and waiting for it.

use vstd::prelude::*;

use crate::builder;
use crate::builder::CargoInvocation;
use crate::chip::{Arch, Chip, CommandView, NocId, Tile};
use crate::elf;
use crate::kernel::KernelData;
use crate::load_options;
use crate::load_options::LoadOptions;
use crate::loader;
use crate::loader::LoadError;

verus! {

/// A kernel on its way into a Tensix.
pub struct QuickLoad {
    pub core: Tile,
    pub noc_id: NocId,
    pub no_wait: bool,
}

/// How long to pause between two looks at a kernel that has not started, in milliseconds.
pub const START_POLL_MILLIS: u64 = 10;

/// What to do next with a kernel that was loaded and released.
#[derive(Clone, Copy, Debug, PartialEq, Eq, Structural)]
pub enum LoadStep {
    /// Print the state of the cores.
    PrintState,
    /// Ask whether the kernel has passed its start synchronisation.
    AskStarted,
    /// Ask whether all cores have completed.
    AskComplete,
    /// Print what changed in the state of the cores.
    PrintStateDiff,
    /// Pause before asking again.
    Pause,
    /// Wait until the kernel has completed.
    WaitForCompletion,
    /// Return the kernel to the caller.
    Return,
}

impl LoadStep {
    /// The step that ends the load: the kernel is returned at once, or waited for.
    pub open spec fn last(no_wait: bool) -> LoadStep {
        if no_wait {
            LoadStep::Return
        } else {
            LoadStep::WaitForCompletion
        }
    }

    /// The step after this one. `answer` is what came back where the step asks something.
    pub open spec fn follows(self, has_start_sync: bool, no_wait: bool, answer: bool) -> LoadStep {
        match self {
            LoadStep::PrintState => if has_start_sync {
                LoadStep::AskStarted
            } else {
                LoadStep::last(no_wait)
            },
            LoadStep::AskStarted => if answer {
                LoadStep::last(no_wait)
            } else {
                LoadStep::AskComplete
            },
            LoadStep::AskComplete => if answer {
                LoadStep::Pause
            } else {
                LoadStep::PrintStateDiff
            },
            LoadStep::PrintStateDiff => LoadStep::Pause,
            LoadStep::Pause => LoadStep::AskStarted,
            LoadStep::WaitForCompletion => LoadStep::Return,
            LoadStep::Return => LoadStep::Return,
        }
    }
}

impl QuickLoad {
    /// Begins to load the kernel `name` into `core`. Returned with it is the build that comes first.
    pub fn begin(name: &str, arch: Arch, core: Tile, options: LoadOptions) -> (begun: (
        Self,
        CargoInvocation,
    ))
        requires
            !(arch is Unknown),
        ensures
            begun.0 == (QuickLoad { core, noc_id: options.noc_id, no_wait: options.no_wait }),
            load_options::builds_kernel(begun.1, name@, options),
            builder::targets(begun.1.options.target, arch, None),
            begun.1.options.extra_flags@ == Seq::<String>::empty(),
    {
        let load = QuickLoad { core, noc_id: options.noc_id, no_wait: options.no_wait };
        (load, load_options::kernel_elf_build(name, arch, options, None, Vec::new()))
    }

    /// Prepares the chip once the build is done, before the file is read.
    pub fn prepare(&self, device: &mut Chip)
        ensures
            final(device)@ == old(device)@ + loader::set_resets(
                self.core.addr,
                loader::all_resets(),
            ) + seq![CommandView::DeassertRiscvReset, CommandView::GoBusy],
    {
        loader::stop(device, self.core.addr);
        device.deassert_riscv_reset();
        device.go_busy();
    }

    /// Loads the file that was built and releases the Tensix. The build has to be a program: a
    /// library cannot be loaded this way.
    pub fn load(&self, device: &mut Chip, bin: bool, file: &[u8]) -> (result: Result<
        KernelData,
        LoadError,
    >)
        requires
            bin,
        ensures
            match elf::elf_contents(file@) {
                Some(image) => loader::load_result(image, file@, result),
                None => result matches Err(LoadError::Malformed),
            },
            final(device)@ == old(device)@ + match result {
                Ok(data) => loader::core_writes(NocId::Noc0, self.core, data@.writes)
                    + loader::set_resets(self.core.addr, loader::start_resets(true, true)),
                Err(_) => seq![],
            },
    {
        let data = match loader::load_to_core(device, self.core, file) {
            Ok(data) => data,
            Err(error) => {
                return Err(error);
            },
        };
        loader::easy_start(device, self.core.addr);
        assert(device@ =~= old(device)@ + (loader::core_writes(
            NocId::Noc0,
            self.core,
            data@.writes,
        ) + loader::set_resets(self.core.addr, loader::start_resets(true, true))));
        Ok(data)
    }

    /// The step after `step`, once the Tensix is released. The first is to print the state.
    pub fn next(&self, step: LoadStep, data: &KernelData, answer: bool) -> (next: LoadStep)
        ensures
            next == step.follows(data.bin.start_sync is Some, self.no_wait, answer),
    {
        let last = if self.no_wait {
            LoadStep::Return
        } else {
            LoadStep::WaitForCompletion
        };
        match step {
            LoadStep::PrintState => if data.bin.start_sync.is_some() {
                LoadStep::AskStarted
            } else {
                last
            },
            LoadStep::AskStarted => if answer {
                last
            } else {
                LoadStep::AskComplete
            },
            LoadStep::AskComplete => if answer {
                LoadStep::Pause
            } else {
                LoadStep::PrintStateDiff
            },
            LoadStep::PrintStateDiff => LoadStep::Pause,
            LoadStep::Pause => LoadStep::AskStarted,
            LoadStep::WaitForCompletion => LoadStep::Return,
            LoadStep::Return => LoadStep::Return,
        }
    }
}

/// The steps of a load, where `answers[i]` came back from the step at `i`.
pub open spec fn step_at(
    has_start_sync: bool,
    no_wait: bool,
    answers: Seq<bool>,
    i: int,
) -> LoadStep
    decreases i,
{
    if i <= 0 {
        LoadStep::PrintState
    } else {
        step_at(has_start_sync, no_wait, answers, i - 1).follows(
            has_start_sync,
            no_wait,
            answers[i - 1],
        )
    }
}

/// A kernel that synchronises its start is not returned, nor its completion waited for, before it
/// has answered that it started.
pub proof fn a_kernel_that_synchronises_has_started(no_wait: bool, answers: Seq<bool>, i: int)
    requires
        0 <= i,
        step_at(true, no_wait, answers, i) is Return || step_at(
            true,
            no_wait,
            answers,
            i,
        ) is WaitForCompletion,
    ensures
        exists|j: int|
            0 <= j < i && (#[trigger] step_at(true, no_wait, answers, j)) is AskStarted
                && answers[j],
    decreases i,
{
    let before = step_at(true, no_wait, answers, i - 1);
    if i > 0 && !(before is AskStarted) {
        a_kernel_that_synchronises_has_started(no_wait, answers, i - 1);
    }
}

/// Unless it is not to be waited for, a kernel is returned only after its completion was waited for.
pub proof fn a_returned_kernel_was_waited_for(has_start_sync: bool, answers: Seq<bool>, i: int)
    requires
        0 <= i,
        step_at(has_start_sync, false, answers, i) is Return,
    ensures
        exists|j: int|
            0 <= j < i && (#[trigger] step_at(
                has_start_sync,
                false,
                answers,
                j,
            )) is WaitForCompletion,
    decreases i,
{
    let before = step_at(has_start_sync, false, answers, i - 1);
    if i > 0 && !(before is WaitForCompletion) {
        a_returned_kernel_was_waited_for(has_start_sync, answers, i - 1);
    }
}

/// A kernel that is not to be waited for is never waited for.
pub proof fn no_wait_never_waits(has_start_sync: bool, answers: Seq<bool>, i: int)
    ensures
        !(step_at(has_start_sync, true, answers, i) is WaitForCompletion),
    decreases i,
{
    if i > 0 {
        no_wait_never_waits(has_start_sync, answers, i - 1);
    }
}

} // verus!
