//! A run of the game: one grid that is replaced by its next generation, tick
//! after tick, until a set number of generations has been shown.

use vstd::prelude::*;
use crate::matrix::Matrix;
use crate::torus::step;

verus! {

/// The grid `k` generations after `g`.
pub open spec fn generation(g: Seq<Seq<bool>>, k: nat) -> Seq<Seq<bool>>
    decreases k,
{
    if k == 0 {
        g
    } else {
        step(generation(g, (k - 1) as nat))
    }
}

/// A game in progress. It holds the one grid of the present generation.
pub struct Game {
    matrix: Matrix,
    ticks: u32,
    iteration: u32,
    first: Ghost<Seq<Seq<bool>>>,
}

impl Game {
    /// The grid is as many generations from the first as ticks have passed,
    /// and no more ticks have passed than the game has.
    #[verifier::type_invariant]
    spec fn inv(self) -> bool {
        &&& self.matrix.wf()
        &&& self.iteration <= self.ticks
        &&& self.matrix@ == generation(self.first@, self.iteration as nat)
    }

    /// The grid the game began with.
    pub closed spec fn first(&self) -> Seq<Seq<bool>> {
        self.first@
    }

    /// The grid of the present generation.
    pub closed spec fn grid(&self) -> Seq<Seq<bool>> {
        self.matrix@
    }

    /// The number of generations the game runs for.
    pub closed spec fn ticks(&self) -> u32 {
        self.ticks
    }

    /// The number of generations that have passed.
    pub closed spec fn iteration(&self) -> u32 {
        self.iteration
    }

    /// A game of `ticks` generations that begins with the grid `matrix`.
    pub fn new(matrix: Matrix, ticks: u32) -> (game: Game)
        requires
            matrix.wf(),
        ensures
            game.first() == matrix@,
            game.grid() == matrix@,
            game.ticks() == ticks,
            game.iteration() == 0,
    {
        let ghost first = matrix@;
        Game { matrix, ticks, iteration: 0, first: Ghost(first) }
    }

    /// The grid of the present generation.
    pub fn matrix(&self) -> (matrix: &Matrix)
        ensures
            matrix.wf(),
            matrix@ == self.grid(),
            self.grid() == generation(self.first(), self.iteration() as nat),
            self.iteration() <= self.ticks(),
    {
        proof {
            use_type_invariant(self);
        }
        &self.matrix
    }

    /// Lets one generation pass, if the game has any left, and says which
    /// one it was, counted from zero: the grid is then replaced by its next
    /// generation. When all generations have passed nothing changes and the
    /// answer is `None`.
    pub fn tick(&mut self) -> (shown: Option<u32>)
        ensures
            final(self).first() == old(self).first(),
            final(self).ticks() == old(self).ticks(),
            old(self).iteration() < old(self).ticks() ==> {
                &&& shown == Some(old(self).iteration())
                &&& final(self).iteration() == old(self).iteration() + 1
                &&& final(self).grid() == step(old(self).grid())
            },
            old(self).iteration() >= old(self).ticks() ==> {
                &&& shown is None
                &&& final(self).iteration() == old(self).iteration()
                &&& final(self).grid() == old(self).grid()
            },
    {
        proof {
            use_type_invariant(&*self);
        }
        if self.iteration < self.ticks {
            let shown: u32 = self.iteration;
            let next: Matrix = self.matrix.update_matrix();
            *self = Game {
                matrix: next,
                ticks: self.ticks,
                iteration: shown + 1,
                first: self.first,
            };
            Some(shown)
        } else {
            None
        }
    }
}

} // verus!
