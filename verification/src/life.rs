//! The rule of the game: which cells are alive in the next generation.
//!
//! A generation is held as a list of the live cells. Its meaning is the set
//! of those cells: neither their order nor repetitions matter to the rule.

use vstd::arithmetic::div_mod::{lemma_fundamental_div_mod, lemma_fundamental_div_mod_converse};
use vstd::prelude::*;
use crate::torus::{arounds, in_grid, neighbours, side, Pos, TERM_WIN_SIZE};

verus! {

/// How many of `cells`, counted with repetition, are in `live`.
pub open spec fn count_live(cells: Seq<Pos>, live: Set<Pos>) -> nat
    decreases cells.len(),
{
    if cells.len() == 0 {
        0
    } else {
        count_live(cells.drop_last(), live) + if live.contains(cells.last()) {
            1nat
        } else {
            0nat
        }
    }
}

/// The number of live cells among the eight neighbours of `p`.
pub open spec fn live_neighbours(p: Pos, live: Set<Pos>) -> nat {
    count_live(neighbours(p), live)
}

/// The rule: a live cell stays alive with two or three live neighbours, a
/// dead cell comes alive with exactly three.
pub open spec fn lives_on(p: Pos, live: Set<Pos>) -> bool {
    if live.contains(p) {
        live_neighbours(p, live) == 2 || live_neighbours(p, live) == 3
    } else {
        live_neighbours(p, live) == 3
    }
}

/// The generation that follows `live`: the cells of the playing field that
/// the rule lets live.
pub open spec fn step(live: Set<Pos>) -> Set<Pos> {
    Set::new(|p: Pos| in_grid(p) && lives_on(p, live))
}

/// The rule as a predicate on cells, for a fixed generation.
pub open spec fn survivor(live: Set<Pos>) -> spec_fn(Pos) -> bool {
    |p: Pos| lives_on(p, live)
}

/// The cells of the playing field, row by row.
pub open spec fn grid_cells() -> Seq<Pos> {
    Seq::new((side() * side()) as nat, |k: int| ((k / side()) as i32, (k % side()) as i32))
}

/// The list that `next_gen` computes from `board`: the cells of the next
/// generation, row by row.
pub open spec fn next_board(board: Seq<Pos>) -> Seq<Pos> {
    grid_cells().filter(survivor(board.to_set()))
}

/// Whether `pos` is among the live cells of `board`.
pub fn is_alive(pos: Pos, board: &Vec<Pos>) -> (alive: bool)
    ensures
        alive == board@.contains(pos),
        alive == board@.to_set().contains(pos),
{
    let mut i: usize = 0;
    while i < board.len()
        invariant
            i <= board.len(),
            forall|j: int| 0 <= j < i ==> board@[j] != pos,
        decreases board.len() - i,
    {
        if board[i].0 == pos.0 && board[i].1 == pos.1 {
            return true;
        }
        i += 1;
    }
    false
}

/// Whether `pos` is not among the live cells of `board`.
pub fn is_dead(pos: Pos, board: &Vec<Pos>) -> (dead: bool)
    ensures
        dead == !board@.contains(pos),
        dead == !board@.to_set().contains(pos),
{
    !is_alive(pos, board)
}

/// Counts the live cells among the eight neighbours of `pos`.
pub fn live_cell_count(pos: Pos, board: &Vec<Pos>) -> (count: u8)
    ensures
        count == live_neighbours(pos, board@.to_set()),
        count <= 8,
{
    let cells: Vec<Pos> = arounds(pos);
    let mut count: u8 = 0;
    let mut i: usize = 0;
    while i < cells.len()
        invariant
            i <= cells.len() == 8,
            count <= i,
            count == count_live(cells@.take(i as int), board@.to_set()),
        decreases cells.len() - i,
    {
        assert(cells@.take(i + 1).drop_last() == cells@.take(i as int));
        if is_alive(cells[i], board) {
            count += 1;
        }
        i += 1;
    }
    assert(cells@.take(8) == cells@);
    count
}

/// Every cell of the playing field stands in `grid_cells`, at the place
/// that its row and column give.
proof fn lemma_grid_cell(p: Pos)
    requires
        in_grid(p),
    ensures
        0 <= p.0 * side() + p.1 < grid_cells().len(),
        grid_cells()[p.0 * side() + p.1] == p,
{
    let n = side();
    let k = p.0 * n + p.1;
    assert(0 <= k < n * n) by (nonlinear_arith)
        requires
            0 <= p.0 < n,
            0 <= p.1 < n,
            k == p.0 * n + p.1,
    ;
    lemma_fundamental_div_mod_converse(k, n, p.0 as int, p.1 as int);
}

/// The list of the next generation holds exactly the cells of the next
/// generation.
pub proof fn law_next_board_is_step(board: Seq<Pos>)
    ensures
        next_board(board).to_set() == step(board.to_set()),
{
    let live = board.to_set();
    let next = next_board(board);
    assert forall|p: Pos| next.contains(p) <==> step(live).contains(p) by {
        if next.contains(p) {
            let i = choose|i: int| 0 <= i < next.len() && next[i] == p;
            grid_cells().lemma_filter_pred(survivor(live), i);
            grid_cells().lemma_filter_contains_rev(survivor(live), p);
        }
        if step(live).contains(p) {
            let k = p.0 * side() + p.1;
            lemma_grid_cell(p);
            grid_cells().lemma_filter_contains(survivor(live), k);
        }
    }
    assert(next.to_set() =~= step(live));
}

/// Keeping some items of a list without repetitions makes no repetitions.
proof fn lemma_filter_no_duplicates(cells: Seq<Pos>, keep: spec_fn(Pos) -> bool)
    requires
        cells.no_duplicates(),
    ensures
        cells.filter(keep).no_duplicates(),
    decreases cells.len(),
{
    reveal(Seq::filter);
    if cells.len() > 0 {
        let front = cells.drop_last();
        lemma_filter_no_duplicates(front, keep);
        if front.filter(keep).contains(cells.last()) {
            front.lemma_filter_contains_rev(keep, cells.last());
        }
    }
}

/// No cell stands twice in the list of the next generation.
pub proof fn law_next_board_no_duplicates(board: Seq<Pos>)
    ensures
        next_board(board).no_duplicates(),
{
    let n = side();
    assert forall|i: int, j: int|
        0 <= i < grid_cells().len() && 0 <= j < grid_cells().len() && i != j implies grid_cells()[i]
        != grid_cells()[j] by {
        lemma_fundamental_div_mod(i, n);
        lemma_fundamental_div_mod(j, n);
    }
    lemma_filter_no_duplicates(grid_cells(), survivor(board.to_set()));
}

/// Among no live cells, none is counted.
proof fn lemma_count_live_empty(cells: Seq<Pos>)
    ensures
        count_live(cells, Set::empty()) == 0,
    decreases cells.len(),
{
    if cells.len() > 0 {
        lemma_count_live_empty(cells.drop_last());
    }
}

/// Nothing is born from nothing: the empty generation is followed by the
/// empty generation.
pub proof fn law_empty_stays_empty()
    ensures
        step(Set::empty()) == Set::<Pos>::empty(),
        next_board(Seq::empty()) == Seq::<Pos>::empty(),
{
    assert forall|p: Pos| !step(Set::empty()).contains(p) by {
        lemma_count_live_empty(neighbours(p));
    }
    assert(step(Set::empty()) =~= Set::<Pos>::empty());
    assert(Seq::<Pos>::empty().to_set() =~= Set::<Pos>::empty());
    law_next_board_is_step(Seq::empty());
    let next = next_board(Seq::empty());
    if next.len() > 0 {
        assert(next.to_set().contains(next[0]));
    }
    assert(next =~= Seq::<Pos>::empty());
}

/// The rule, case by case, for a cell of the playing field: birth,
/// survival, death of a live cell, and a dead cell that stays dead.
pub proof fn law_rule(p: Pos, live: Set<Pos>)
    requires
        in_grid(p),
    ensures
        !live.contains(p) && live_neighbours(p, live) == 3 ==> step(live).contains(p),
        live.contains(p) && 2 <= live_neighbours(p, live) <= 3 ==> step(live).contains(p),
        live.contains(p) && (live_neighbours(p, live) <= 1 || 4 <= live_neighbours(p, live))
            ==> !step(live).contains(p),
        !live.contains(p) && live_neighbours(p, live) != 3 ==> !step(live).contains(p),
{
}

/// A cell with fewer than two live neighbours is dead in the next
/// generation, whether or not it was alive.
pub proof fn law_lonely_cell_dies(p: Pos, live: Set<Pos>)
    requires
        live_neighbours(p, live) < 2,
    ensures
        !step(live).contains(p),
{
}

/// A single live cell, wherever it is, leaves nothing behind: it has no
/// live neighbour, and no other cell has three.
pub proof fn law_single_cell_dies(p: Pos)
    ensures
        step(set![p]) == Set::<Pos>::empty(),
{
    let live = set![p];
    assert forall|q: Pos| !step(live).contains(q) by {
        if in_grid(q) {
            reveal_with_fuel(count_live, 9);
            assert(live_neighbours(q, live) <= 1);
            assert(q == p ==> live_neighbours(q, live) == 0);
        }
    }
    assert(step(live) =~= Set::<Pos>::empty());
}

/// Computes the next generation: every cell of the playing field is held
/// against the rule, row by row.
pub fn next_gen(board: &Vec<Pos>) -> (next: Vec<Pos>)
    ensures
        next@ == next_board(board@),
        next@.to_set() == step(board@.to_set()),
        next@.no_duplicates(),
{
    let ghost live = board@.to_set();
    let mut next: Vec<Pos> = Vec::new();
    let mut row: i32 = 0;
    proof {
        assert(grid_cells().take(0).filter(survivor(live)) == Seq::<Pos>::empty()) by {
            reveal(Seq::filter);
        }
    }
    while row < TERM_WIN_SIZE - 1
        invariant
            0 <= row <= side(),
            live == board@.to_set(),
            next@ == grid_cells().take(row * side()).filter(survivor(live)),
        decreases side() - row,
    {
        let mut col: i32 = 0;
        while col < TERM_WIN_SIZE - 1
            invariant
                0 <= row < side(),
                0 <= col <= side(),
                live == board@.to_set(),
                next@ == grid_cells().take(row * side() + col).filter(survivor(live)),
            decreases side() - col,
        {
            proof {
                let k = row * side() + col;
                lemma_grid_cell((row, col));
                assert(grid_cells().take(k + 1) == grid_cells().take(k).push((row, col)));
                grid_cells().take(k).lemma_filter_push((row, col), survivor(live));
            }
            let live_cell_count: u8 = live_cell_count((row, col), board);
            if is_dead((row, col), board) {
                if live_cell_count == 3 {
                    next.push((row, col));
                }
            } else if is_alive((row, col), board) {
                if live_cell_count == 2 || live_cell_count == 3 {
                    next.push((row, col));
                }
            }
            col += 1;
        }
        assert((row + 1) * side() == row * side() + side()) by (nonlinear_arith);
        row += 1;
    }
    proof {
        assert(grid_cells().len() == side() * side());
        assert(grid_cells().take(side() * side()) == grid_cells());
        law_next_board_is_step(board@);
        law_next_board_no_duplicates(board@);
    }
    next
}

} // verus!
