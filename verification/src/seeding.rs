//! Seeding of the bodies around the central one: each starts in one of a
//! few concentric shells.

use vstd::prelude::*;

verus! {

/// Number of bodies around the central one.
pub const BODY_COUNT: usize = 500;

/// Number of shells.
pub const SHELL_COUNT: u32 = 6;

/// Distance from one shell to the next, and of the innermost shell from
/// the centre.
pub const SHELL_SPACING: u32 = 150;

/// Distance from the centre around which the bodies of a shell are
/// scattered; shell 0 is the innermost.
pub open spec fn shell_distance(shell: int) -> int {
    SHELL_SPACING * (shell + 1)
}

/// Draws a whole number from `low..high` with `rand::Rng::gen_range` on the
/// generator that `rand::thread_rng` hands out. Trusted, not proved: the
/// number drawn lies in the range asked for, `high` left out. Which number
/// it is depends on the generator's state, so nothing more is said of it.
/// An empty range makes `gen_range` panic, hence `low` must lie below
/// `high`. `thread_rng` panics where the system hands it no seed, which no
/// precondition can rule out.
#[verifier::external_body]
fn random_in(low: u32, high: u32) -> (drawn: u32)
    requires
        low < high,
    ensures
        low <= drawn < high,
{
    rand::Rng::gen_range(&mut rand::thread_rng(), low..high)
}

/// Picks the shell for a new body at random.
pub fn pick_shell() -> (shell: u32)
    ensures
        shell < SHELL_COUNT,
{
    random_in(0, SHELL_COUNT)
}

/// Distance from the centre around which the bodies of `shell` are
/// scattered.
pub fn shell_base_distance(shell: u32) -> (distance: u64)
    ensures
        distance == shell_distance(shell as int),
{
    (SHELL_SPACING as u64) * (shell as u64 + 1)
}

/// Shells lie further out the higher their number, one spacing apart.
pub proof fn lemma_shells_apart(inner: int, outer: int)
    requires
        0 <= inner < outer,
    ensures
        shell_distance(inner) + SHELL_SPACING <= shell_distance(outer),
        SHELL_SPACING <= shell_distance(inner),
{
}

} // verus!
