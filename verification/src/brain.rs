//! Opponents: the `Brain` seam and the uniform random mover.

use vstd::prelude::*;
use crate::game::Game;
use crate::movegen::{gen_ok, legal_moves_of};
use crate::moves::Move;

verus! {

#[verifier::external_type_specification]
#[verifier::external_body]
pub struct ExRng(fastrand::Rng);

/// `fastrand::Rng::with_seed`: a generator whose stream is fixed by the
/// seed. Nothing is stated of its state, which the crate keeps private.
#[verifier::external_body]
fn rng_with_seed(seed: u64) -> fastrand::Rng {
    fastrand::Rng::with_seed(seed)
}

/// `fastrand::Rng::usize` over `..n`: a draw below `n`, for `n > 0` (the
/// crate panics on an empty range). Which value comes out depends on the
/// generator's hidden state, so only the bound is stated.
#[verifier::external_body]
fn rng_below(rng: &mut fastrand::Rng, n: usize) -> (r: usize)
    requires
        n > 0,
    ensures
        r < n,
{
    rng.usize(..n)
}

/// An opponent. It sees the whole game, not just the position, so that a
/// brain can take repetition and the clocks into account.
pub trait Brain {
    /// The move to play, or `None` when the brain has none.
    fn choose_move(&mut self, game: &Game) -> (r: Option<Move>)
        requires
            game.wf(),
            gen_ok(game.current()),
    ;

    /// Shown in the interface.
    fn name(&self) -> (s: &str);
}

/// Uniform random legal mover; the baseline every other brain must beat.
pub struct RandomBrain {
    rng: fastrand::Rng,
}

impl RandomBrain {
    pub fn new(seed: u64) -> RandomBrain {
        RandomBrain { rng: rng_with_seed(seed) }
    }
}

impl Brain for RandomBrain {
    /// Some legal move, drawn by the generator; `None` exactly when there
    /// is no legal move.
    fn choose_move(&mut self, game: &Game) -> (r: Option<Move>)
        ensures
            r is None <==> legal_moves_of(game.current()).len() == 0,
            r matches Some(mv) ==> legal_moves_of(game.current()).contains(mv),
    {
        let moves = game.legal_moves();
        if moves.is_empty() {
            return None;
        }
        let i = rng_below(&mut self.rng, moves.len());
        let mv = moves.get(i);
        assert(moves@[i as int] == mv);
        Some(mv)
    }

    fn name(&self) -> (s: &str)
        ensures
            s@ == "Random"@,
    {
        "Random"
    }
}

} // verus!
