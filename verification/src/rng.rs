//! Drawing the hidden target through the `rand` crate.

use vstd::prelude::*;

use rand::Rng;

use crate::game::Game;

verus! {

/// Relies on `rand::thread_rng` and `rand::Rng::gen_range`: sampling the
/// inclusive range `1..=100` draws a value uniformly from inside that range
/// (`UniformInt::sample_single_inclusive` on both bounds). Which value comes
/// back depends on the generator's state, so only the bounds are stated.
#[verifier::external_body]
fn draw_target() -> (t: u32)
    ensures
        1 <= t <= 100,
{
    let t: u32 = rand::thread_rng().gen_range(1..=100u32);
    t
}

/// Start a game around a freshly drawn random target in `[1, 100]`.
pub fn random_game() -> (g: Game)
    ensures
        g.wf(),
        1 <= g.target <= 100,
        g.attempts == 0,
        g.status is InProgress,
{
    let t: u32 = draw_target();
    Game::new(t)
}

} // verus!
