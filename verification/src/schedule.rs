//! Step scheduling: how many physics substeps a rendered frame runs.

use vstd::prelude::*;

verus! {

/// Number of whole base timesteps that one substep may stand for at most.
pub const SUBSTEP_CAP: usize = 4;

/// The substep count for a frame as a mathematical integer: the number of
/// whole base timesteps that fit into the frame, divided by the cap and
/// rounded up.
pub open spec fn substeps_for(desired_steps: int) -> int {
    (desired_steps + SUBSTEP_CAP - 1) / (SUBSTEP_CAP as int)
}

/// Number of physics substeps to run in a frame into which `desired_steps`
/// whole base timesteps fit.
pub fn substeps(desired_steps: usize) -> (count: usize)
    ensures
        count == substeps_for(desired_steps as int),
        count == 0 <==> desired_steps == 0,
{
    let whole: usize = desired_steps / SUBSTEP_CAP;
    if desired_steps % SUBSTEP_CAP == 0 {
        whole
    } else {
        whole + 1
    }
}

/// The substeps of a frame are as few as can be with no substep standing
/// for more than `SUBSTEP_CAP` base timesteps: the cap times the count
/// reaches the number of base timesteps, and with one substep less it
/// would fall short.
pub proof fn lemma_substeps_bound(desired_steps: int)
    requires
        0 <= desired_steps,
    ensures
        0 <= substeps_for(desired_steps) <= desired_steps,
        desired_steps <= SUBSTEP_CAP * substeps_for(desired_steps),
        SUBSTEP_CAP * (substeps_for(desired_steps) - 1) < desired_steps,
{
}

/// More base timesteps never give fewer substeps.
pub proof fn lemma_substeps_monotonic(fewer: int, more: int)
    requires
        0 <= fewer <= more,
    ensures
        substeps_for(fewer) <= substeps_for(more),
{
}

} // verus!
