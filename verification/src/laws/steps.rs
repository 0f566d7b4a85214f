//! The steps of a load.

use vstd::prelude::*;

use crate::quick_load;
use crate::quick_load::LoadStep;

verus! {

/// Whether a step ends a load: the kernel is waited for, or returned.
pub open spec fn ends(step: LoadStep) -> bool {
    step is WaitForCompletion || step is Return
}

/// A load begins by printing the state of the cores, and does so once.
pub proof fn the_state_is_printed_first(
    has_start_sync: bool,
    no_wait: bool,
    answers: Seq<bool>,
    i: int,
)
    requires
        0 <= i,
    ensures
        quick_load::step_at(has_start_sync, no_wait, answers, i) is PrintState <==> i == 0,
    decreases i,
{
    if i > 0 {
        the_state_is_printed_first(has_start_sync, no_wait, answers, i - 1);
    }
}

/// A kernel that does not synchronise its start is not asked anything: it is returned at once where
/// it is not to be waited for, else once it was waited for.
pub proof fn a_kernel_without_start_sync_is_not_asked(no_wait: bool, answers: Seq<bool>, i: int)
    requires
        0 < i,
    ensures
        no_wait ==> quick_load::step_at(false, no_wait, answers, i) is Return,
        !no_wait && i == 1 ==> quick_load::step_at(
            false,
            no_wait,
            answers,
            i,
        ) is WaitForCompletion,
        !no_wait && i > 1 ==> quick_load::step_at(false, no_wait, answers, i) is Return,
    decreases i,
{
    reveal_with_fuel(quick_load::step_at, 2);
    if i > 1 {
        a_kernel_without_start_sync_is_not_asked(no_wait, answers, i - 1);
    }
}

/// A kernel that synchronises its start is asked right after the state was printed whether it has
/// started.
pub proof fn a_kernel_with_start_sync_is_asked(no_wait: bool, answers: Seq<bool>)
    ensures
        quick_load::step_at(true, no_wait, answers, 1) is AskStarted,
{
    reveal_with_fuel(quick_load::step_at, 2);
}

/// Once a kernel has answered that it started, it is returned, or waited for and then returned.
pub proof fn a_started_kernel_is_not_asked_again(
    has_start_sync: bool,
    no_wait: bool,
    answers: Seq<bool>,
    i: int,
    j: int,
)
    requires
        0 <= i < j,
        quick_load::step_at(has_start_sync, no_wait, answers, i) is AskStarted,
        answers[i],
    ensures
        ends(quick_load::step_at(has_start_sync, no_wait, answers, j)),
        no_wait || j > i + 1 ==> quick_load::step_at(
            has_start_sync,
            no_wait,
            answers,
            j,
        ) is Return,
    decreases j,
{
    if j > i + 1 {
        a_started_kernel_is_not_asked_again(has_start_sync, no_wait, answers, i, j - 1);
    }
}

/// A kernel that has not started is asked again, after a pause. Before that it is asked whether its
/// cores have completed, and what changed in their state is printed exactly where they have not.
pub proof fn a_kernel_that_has_not_started_is_asked_again(
    has_start_sync: bool,
    no_wait: bool,
    answers: Seq<bool>,
    i: int,
)
    requires
        0 <= i,
        quick_load::step_at(has_start_sync, no_wait, answers, i) is AskStarted,
        !answers[i],
    ensures
        quick_load::step_at(has_start_sync, no_wait, answers, i + 1) is AskComplete,
        answers[i + 1] ==> {
            &&& quick_load::step_at(has_start_sync, no_wait, answers, i + 2) is Pause
            &&& quick_load::step_at(has_start_sync, no_wait, answers, i + 3) is AskStarted
        },
        !answers[i + 1] ==> {
            &&& quick_load::step_at(has_start_sync, no_wait, answers, i + 2) is PrintStateDiff
            &&& quick_load::step_at(has_start_sync, no_wait, answers, i + 3) is Pause
            &&& quick_load::step_at(has_start_sync, no_wait, answers, i + 4) is AskStarted
        },
{
    reveal_with_fuel(quick_load::step_at, 5);
}

} // verus!
