//! The run of the game, one frame at a time.
//!
//! The caller owns the terminal and the clock: it writes out what `start`
//! and `tick` append to the buffer, and waits `MILLI_SEC_PER_1_GEN` between
//! two frames, until `tick` says that the run is over.

use vstd::prelude::*;
use crate::life::{next_board, next_gen, step};
use crate::render::Renderer;
use crate::torus::{in_grid, Pos};

verus! {

/// The time between two frames, in milliseconds.
pub const MILLI_SEC_PER_1_GEN: u64 = 100;

/// The number of generations that a run shows after the first.
pub const MAX_GEN: u16 = 1000;

/// The pattern that a run starts from: a glider in the upper left corner.
pub open spec fn glider() -> Seq<Pos> {
    seq![(0i32, 1i32), (1i32, 2i32), (2i32, 0i32), (2i32, 1i32), (2i32, 2i32)]
}

/// A run of the game: the generation on the screen, how many generations
/// have gone by, and how frames are drawn.
pub struct Game {
    board: Vec<Pos>,
    generation: u16,
    renderer: Renderer,
}

/// What a run is, to the eye of a contract.
pub struct GameView {
    /// The live cells of the generation on the screen.
    pub board: Seq<Pos>,
    /// The number of generations that have gone by.
    pub generation: nat,
    /// How frames are drawn.
    pub renderer: Renderer,
}

impl View for Game {
    type V = GameView;

    closed spec fn view(&self) -> GameView {
        GameView {
            board: self.board@,
            generation: self.generation as nat,
            renderer: self.renderer,
        }
    }
}

impl Game {
    #[verifier::type_invariant]
    spec fn inv(&self) -> bool {
        &&& self.generation <= MAX_GEN
        &&& forall|i: int| 0 <= i < self.board@.len() ==> in_grid(#[trigger] self.board@[i])
    }

    /// A run that starts from the glider.
    pub fn new(renderer: Renderer) -> (game: Game)
        ensures
            game@.board == glider(),
            game@.generation == 0,
            game@.renderer == renderer,
    {
        let mut board: Vec<Pos> = Vec::new();
        board.push((0, 1));
        board.push((1, 2));
        board.push((2, 0));
        board.push((2, 1));
        board.push((2, 2));
        Game { board, generation: 0, renderer }
    }

    /// The live cells of the generation on the screen. All of them lie on
    /// the playing field.
    pub fn board(&self) -> (board: &Vec<Pos>)
        ensures
            board@ == self@.board,
            forall|i: int| 0 <= i < board@.len() ==> in_grid(#[trigger] board@[i]),
    {
        proof {
            use_type_invariant(self);
        }
        &self.board
    }

    /// The number of generations that have gone by, `MAX_GEN` at most.
    pub fn generation(&self) -> (generation: u16)
        ensures
            generation == self@.generation,
            generation <= MAX_GEN,
    {
        proof {
            use_type_invariant(self);
        }
        self.generation
    }

    /// Appends what opens the run: the screen is prepared and the first
    /// generation drawn, as a frame over itself.
    pub fn start(&self, out: &mut Vec<char>)
        ensures
            final(out)@ == old(out)@ + self@.renderer.start_text() + self@.renderer.frame_text(
                self@.board,
                self@.board,
            ),
    {
        self.renderer.start(out);
        self.renderer.render(&self.board, &self.board, out);
    }

    /// Moves on by one generation and appends its frame, unless `MAX_GEN`
    /// generations have gone by: then nothing changes, and the result is
    /// `false`.
    pub fn tick(&mut self, out: &mut Vec<char>) -> (more: bool)
        ensures
            more == (old(self)@.generation < MAX_GEN),
            final(self)@.renderer == old(self)@.renderer,
            more ==> final(self)@.generation == old(self)@.generation + 1,
            more ==> final(self)@.board == next_board(old(self)@.board),
            more ==> final(self)@.board.to_set() == step(old(self)@.board.to_set()),
            more ==> final(out)@ == old(out)@ + old(self)@.renderer.frame_text(
                old(self)@.board,
                final(self)@.board,
            ),
            !more ==> final(self)@ == old(self)@,
            !more ==> final(out)@ == old(out)@,
    {
        proof {
            use_type_invariant(&*self);
        }
        if self.generation >= MAX_GEN {
            return false;
        }
        let next: Vec<Pos> = next_gen(&self.board);
        proof {
            assert forall|i: int| 0 <= i < next@.len() implies in_grid(#[trigger] next@[i]) by {
                assert(next@.to_set().contains(next@[i]));
            }
        }
        self.renderer.render(&self.board, &next, out);
        self.board = next;
        self.generation = self.generation + 1;
        true
    }
}

} // verus!
