//! The playing field: a square grid whose edges are glued together, so that
//! every cell has eight neighbours.

use vstd::prelude::*;
use vstd::arithmetic::div_mod::{
    lemma_fundamental_div_mod, lemma_fundamental_div_mod_converse,
    lemma_mod_add_multiples_vanish, lemma_mod_bound, lemma_small_mod,
};

verus! {

/// A cell coordinate, `(row, column)`.
pub type Pos = (i32, i32);

/// Width and height of the terminal window, in cells. The playing field is
/// one cell smaller in each direction.
pub const TERM_WIN_SIZE: i32 = 20;

/// Number of rows, and of columns, of the playing field.
pub open spec fn side() -> int {
    TERM_WIN_SIZE - 1
}

/// Whether `p` lies on the playing field.
pub open spec fn in_grid(p: Pos) -> bool {
    0 <= p.0 < side() && 0 <= p.1 < side()
}

/// The coordinate `n` folded back onto an axis of length `m`: the
/// non-negative remainder of `n` by `m`.
pub open spec fn wrap(n: int, m: int) -> int {
    n % m
}

/// `wrap` is the Euclidean remainder: it lies in `0..m` and differs from
/// `n` by a multiple of `m`.
pub proof fn law_wrap_is_euclidean(n: int, m: int)
    requires
        m > 0,
    ensures
        0 <= wrap(n, m) < m,
        n == m * (n / m) + wrap(n, m),
{
    lemma_mod_bound(n, m);
    lemma_fundamental_div_mod(n, m);
}

/// Going once around the axis leads back to the same place, and the cell
/// before the first is the last.
pub proof fn law_wrap_around(r: int, n: int)
    requires
        0 <= r < n,
    ensures
        wrap(r + n, n) == wrap(r, n),
        wrap(r, n) == r,
        wrap(-1, n) == n - 1,
{
    lemma_mod_add_multiples_vanish(r, n);
    lemma_small_mod(r as nat, n as nat);
    lemma_small_mod((n - 1) as nat, n as nat);
    lemma_mod_add_multiples_vanish(-1, n);
}

/// Folds `n` back onto an axis of length `m`.
pub fn div_inv(n: i32, m: i32) -> (r: i32)
    requires
        m > 0,
    ensures
        r == wrap(n as int, m as int),
        r == (n as int) % (m as int),
        0 <= r < m,
        n == m * (n as int / m as int) + r,
{
    let r: i32 = n % m;
    proof {
        law_wrap_is_euclidean(n as int, m as int);
        if n < 0 {
            let back = (-n) % (m as int);
            let turns = (-n) / (m as int);
            lemma_mod_bound(-n, m as int);
            lemma_fundamental_div_mod(-n, m as int);
            assert(r == -back);
            if back == 0 {
                assert(n == (-turns) * m + 0) by (nonlinear_arith)
                    requires
                        -n == m * turns + back,
                        back == 0,
                ;
                lemma_fundamental_div_mod_converse(n as int, m as int, -turns, 0);
            } else {
                assert(n == (-turns - 1) * m + (m - back)) by (nonlinear_arith)
                    requires
                        -n == m * turns + back,
                ;
                lemma_fundamental_div_mod_converse(n as int, m as int, -turns - 1, m - back);
            }
        }
    }
    if r < 0 {
        r + m
    } else {
        r
    }
}

/// The cell at `(row, col)`, each axis folded back onto the playing field.
pub open spec fn wrapped(row: int, col: int) -> Pos {
    (wrap(row, side()) as i32, wrap(col, side()) as i32)
}

/// The eight cells around `p` on the torus: the row above from left to
/// right, then the cells to the left and to the right, then the row below.
pub open spec fn neighbours(p: Pos) -> Seq<Pos> {
    seq![
        wrapped(p.0 - 1, p.1 - 1),
        wrapped(p.0 - 1, p.1 as int),
        wrapped(p.0 - 1, p.1 + 1),
        wrapped(p.0 as int, p.1 - 1),
        wrapped(p.0 as int, p.1 + 1),
        wrapped(p.0 + 1, p.1 - 1),
        wrapped(p.0 + 1, p.1 as int),
        wrapped(p.0 + 1, p.1 + 1),
    ]
}

/// On the playing field the neighbours of a cell are eight different cells
/// of the playing field, none of them the cell itself.
pub proof fn law_neighbours_on_torus(p: Pos)
    requires
        in_grid(p),
    ensures
        neighbours(p).len() == 8,
        neighbours(p).no_duplicates(),
        !neighbours(p).contains(p),
        forall|i: int| 0 <= i < 8 ==> in_grid(#[trigger] neighbours(p)[i]),
{
}

/// The eight neighbours of `pos`, in the order of [`neighbours`].
pub fn arounds(pos: Pos) -> (cells: Vec<Pos>)
    ensures
        cells@ == neighbours(pos),
{
    let n: i32 = TERM_WIN_SIZE - 1;
    let row: i32 = div_inv(pos.0, n);
    let col: i32 = div_inv(pos.1, n);
    let up: i32 = div_inv(row - 1, n);
    let down: i32 = div_inv(row + 1, n);
    let left: i32 = div_inv(col - 1, n);
    let right: i32 = div_inv(col + 1, n);
    let mut cells: Vec<Pos> = Vec::new();
    cells.push((up, left));
    cells.push((up, col));
    cells.push((up, right));
    cells.push((row, left));
    cells.push((row, right));
    cells.push((down, left));
    cells.push((down, col));
    cells.push((down, right));
    cells
}

} // verus!
