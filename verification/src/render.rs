//! Frames: what has to be drawn to turn a screen that shows one generation
//! into a screen that shows the next.
//!
//! A frame is a list of strokes, each of which draws one cell alive or
//! dead. What the strokes do to the screen is stated over the set of cells
//! that the screen shows alive.

use vstd::prelude::*;
use crate::ansi::{
    clear_screen, clear_screen_text, cursor_at, cursor_text, dead_glyph, frame_text,
    hide_cursor, hide_cursor_text, live_glyph, print_cell, print_dead_cell, write_frame,
};
use crate::life::is_alive;
use crate::torus::Pos;

verus! {

/// The cells of `v1` that are not in `v2`, in the order and as often as
/// they stand in `v1`.
pub open spec fn erased(v1: Seq<Pos>, v2: Seq<Pos>) -> Seq<Pos> {
    v1.filter(absent_from(v2))
}

/// Not being a cell of `cells`, as a predicate.
pub open spec fn absent_from(cells: Seq<Pos>) -> spec_fn(Pos) -> bool {
    |p: Pos| !cells.contains(p)
}

/// One thing to draw: a cell, and whether it is drawn alive or dead.
pub type Stroke = (Pos, bool);

/// Drawing each of `cells` in turn, alive or dead.
pub open spec fn strokes(cells: Seq<Pos>, alive: bool) -> Seq<Stroke> {
    cells.map_values(|p: Pos| (p, alive))
}

/// What a frame draws when `prev` is on the screen and `curr` is to be
/// shown: every cell of `curr` alive, then the cells that have just died.
pub open spec fn frame_strokes(prev: Seq<Pos>, curr: Seq<Pos>) -> Seq<Stroke> {
    strokes(curr, true) + strokes(erased(prev, curr), false)
}

/// The characters of one stroke. The playing field lies inside the border,
/// one line down and one cell to the right, and each cell ends its line.
pub open spec fn stroke_text(stroke: Stroke) -> Seq<char> {
    cursor_text(stroke.0.0 + 1, stroke.0.1 + 1) + if stroke.1 {
        live_glyph()
    } else {
        dead_glyph()
    } + seq!['\n']
}

/// The characters of a list of strokes.
pub open spec fn strokes_text(list: Seq<Stroke>) -> Seq<char>
    decreases list.len(),
{
    if list.len() == 0 {
        Seq::empty()
    } else {
        strokes_text(list.drop_last()) + stroke_text(list.last())
    }
}

/// The cells that the screen shows alive after `list` was drawn over a
/// screen that showed `shown`.
pub open spec fn shown_after(list: Seq<Stroke>, shown: Set<Pos>) -> Set<Pos>
    decreases list.len(),
{
    if list.len() == 0 {
        shown
    } else if list.last().1 {
        shown_after(list.drop_last(), shown).insert(list.last().0)
    } else {
        shown_after(list.drop_last(), shown).remove(list.last().0)
    }
}

/// The cells of `v1` that are not in `v2`: what a frame has to wipe out
/// when `v1` is on the screen and `v2` is to be shown.
pub fn subs(v1: &Vec<Pos>, v2: &Vec<Pos>) -> (res: Vec<Pos>)
    ensures
        res@ == erased(v1@, v2@),
        res@.to_set() == v1@.to_set().difference(v2@.to_set()),
{
    let mut res: Vec<Pos> = Vec::new();
    let mut i: usize = 0;
    proof {
        assert(erased(v1@.take(0), v2@) == Seq::<Pos>::empty()) by {
            reveal(Seq::filter);
        }
    }
    while i < v1.len()
        invariant
            i <= v1.len(),
            res@ == erased(v1@.take(i as int), v2@),
        decreases v1.len() - i,
    {
        proof {
            assert(v1@.take(i + 1) == v1@.take(i as int).push(v1@[i as int]));
            v1@.take(i as int).lemma_filter_push(v1@[i as int], absent_from(v2@));
        }
        if !is_alive(v1[i], v2) {
            res.push(v1[i]);
        }
        i += 1;
    }
    proof {
        assert(v1@.take(v1.len() as int) == v1@);
        law_erased_is_difference(v1@, v2@);
    }
    res
}

/// The cells to wipe out are those of the previous generation that the
/// current one has not kept: every cell of `prev` that is not in `curr`,
/// and no cell of `curr`.
pub proof fn law_erased_is_difference(prev: Seq<Pos>, curr: Seq<Pos>)
    ensures
        erased(prev, curr).to_set() == prev.to_set().difference(curr.to_set()),
        forall|p: Pos| curr.contains(p) ==> !erased(prev, curr).contains(p),
{
    let gone = erased(prev, curr);
    assert forall|p: Pos| gone.contains(p) <==> prev.contains(p) && !curr.contains(p) by {
        if gone.contains(p) {
            let i = choose|i: int| 0 <= i < gone.len() && gone[i] == p;
            prev.lemma_filter_pred(absent_from(curr), i);
            prev.lemma_filter_contains_rev(absent_from(curr), p);
        }
        if prev.contains(p) && !curr.contains(p) {
            let i = choose|i: int| 0 <= i < prev.len() && prev[i] == p;
            prev.lemma_filter_contains(absent_from(curr), i);
        }
    }
    assert(gone.to_set() =~= prev.to_set().difference(curr.to_set()));
}

/// A frame, whatever the two generations: first every cell of `curr` is
/// drawn alive, in its order; then exactly the cells that `subs` gives are
/// drawn dead, one stroke each and in their order. No cell of `curr` is
/// drawn dead.
pub proof fn law_frame_wipes_the_difference(prev: Seq<Pos>, curr: Seq<Pos>)
    ensures
        frame_strokes(prev, curr).len() == curr.len() + erased(prev, curr).len(),
        forall|i: int|
            0 <= i < curr.len() ==> #[trigger] frame_strokes(prev, curr)[i] == (curr[i], true),
        forall|j: int|
            0 <= j < erased(prev, curr).len() ==> frame_strokes(prev, curr)[curr.len() + j] == (
                #[trigger] erased(prev, curr)[j],
                false,
            ),
        forall|i: int|
            0 <= i < frame_strokes(prev, curr).len() && !(#[trigger] frame_strokes(prev, curr)[i]).1
                ==> i >= curr.len() && prev.contains(frame_strokes(prev, curr)[i].0)
                && !curr.contains(frame_strokes(prev, curr)[i].0),
{
    law_erased_is_difference(prev, curr);
    let list = frame_strokes(prev, curr);
    let gone = erased(prev, curr);
    assert forall|i: int| 0 <= i < list.len() && !(#[trigger] list[i]).1 implies i >= curr.len()
        && prev.contains(list[i].0) && !curr.contains(list[i].0) by {
        assert(gone.contains(gone[i - curr.len()]));
        assert(gone.to_set().contains(gone[i - curr.len()]));
    }
}

/// Drawing two lists of strokes, one after the other.
proof fn lemma_shown_after_concat(a: Seq<Stroke>, b: Seq<Stroke>, shown: Set<Pos>)
    ensures
        shown_after(a + b, shown) == shown_after(b, shown_after(a, shown)),
    decreases b.len(),
{
    if b.len() == 0 {
        assert(a + b == a);
    } else {
        assert((a + b).drop_last() == a + b.drop_last());
        lemma_shown_after_concat(a, b.drop_last(), shown);
    }
}

/// Drawing cells alive adds them to the screen; drawing them dead takes
/// them away.
proof fn lemma_shown_after_strokes(cells: Seq<Pos>, alive: bool, shown: Set<Pos>)
    ensures
        shown_after(strokes(cells, alive), shown) == if alive {
            shown.union(cells.to_set())
        } else {
            shown.difference(cells.to_set())
        },
    decreases cells.len(),
{
    let after = shown_after(strokes(cells, alive), shown);
    if cells.len() == 0 {
        assert(after =~= shown.union(cells.to_set()));
        assert(after =~= shown.difference(cells.to_set()));
    } else {
        let front = cells.drop_last();
        assert(strokes(cells, alive).drop_last() == strokes(front, alive));
        lemma_shown_after_strokes(front, alive, shown);
        assert forall|p: Pos| cells.contains(p) <==> front.contains(p) || p == cells.last() by {
            if cells.contains(p) {
                let i = choose|i: int| 0 <= i < cells.len() && cells[i] == p;
                if i < front.len() {
                    assert(front[i] == p);
                }
            }
            if front.contains(p) {
                let i = choose|i: int| 0 <= i < front.len() && front[i] == p;
                assert(cells[i] == p);
            }
            assert(cells[cells.len() - 1] == cells.last());
        }
        if alive {
            assert(after =~= shown.union(cells.to_set()));
        } else {
            assert(after =~= shown.difference(cells.to_set()));
        }
    }
}

/// A frame drawn over a screen that shows the previous generation leaves
/// the current generation on the screen.
pub proof fn law_frame_shows_current(prev: Seq<Pos>, curr: Seq<Pos>)
    ensures
        shown_after(frame_strokes(prev, curr), prev.to_set()) == curr.to_set(),
{
    let drawn = strokes(curr, true);
    let wiped = strokes(erased(prev, curr), false);
    lemma_shown_after_concat(drawn, wiped, prev.to_set());
    lemma_shown_after_strokes(curr, true, prev.to_set());
    lemma_shown_after_strokes(erased(prev, curr), false, prev.to_set().union(curr.to_set()));
    law_erased_is_difference(prev, curr);
    assert(prev.to_set().union(curr.to_set()).difference(
        prev.to_set().difference(curr.to_set()),
    ) =~= curr.to_set());
}

/// A cell that is alive before and after a frame is left as it is: the
/// frame never draws it dead, and the screen shows it alive after every
/// stroke.
pub proof fn law_kept_cells_stay(prev: Seq<Pos>, curr: Seq<Pos>, p: Pos)
    requires
        prev.contains(p),
        curr.contains(p),
    ensures
        !erased(prev, curr).contains(p),
        forall|i: int|
            0 <= i < frame_strokes(prev, curr).len() && (#[trigger] frame_strokes(prev, curr)[i]).0
                == p ==> frame_strokes(prev, curr)[i].1,
        forall|i: int|
            0 <= i <= frame_strokes(prev, curr).len() ==> #[trigger] shown_after(
                frame_strokes(prev, curr).take(i),
                prev.to_set(),
            ).contains(p),
{
    law_erased_is_difference(prev, curr);
    let list = frame_strokes(prev, curr);
    let gone = erased(prev, curr);
    assert forall|i: int| 0 <= i < list.len() && (#[trigger] list[i]).0 == p implies list[i].1 by {
        if i >= curr.len() {
            assert(gone.contains(gone[i - curr.len()]));
        }
    }
    assert forall|i: int| 0 <= i <= list.len() implies #[trigger] shown_after(
        list.take(i),
        prev.to_set(),
    ).contains(p) by {
        lemma_alive_strokes_keep(list.take(i), prev.to_set(), p);
    }
}

/// A cell on the screen stays there while no stroke draws it dead.
proof fn lemma_alive_strokes_keep(list: Seq<Stroke>, shown: Set<Pos>, p: Pos)
    requires
        shown.contains(p),
        forall|i: int| 0 <= i < list.len() && (#[trigger] list[i]).0 == p ==> list[i].1,
    ensures
        shown_after(list, shown).contains(p),
    decreases list.len(),
{
    if list.len() > 0 {
        assert forall|i: int| 0 <= i < list.drop_last().len() && (#[trigger] list.drop_last()[i]).0
            == p implies list.drop_last()[i].1 by {
            assert(list.drop_last()[i] == list[i]);
        }
        lemma_alive_strokes_keep(list.drop_last(), shown, p);
    }
}

/// The characters of two lists of strokes, one after the other.
proof fn lemma_strokes_text_concat(a: Seq<Stroke>, b: Seq<Stroke>)
    ensures
        strokes_text(a + b) == strokes_text(a) + strokes_text(b),
    decreases b.len(),
{
    if b.len() == 0 {
        assert(a + b == a);
    } else {
        assert((a + b).drop_last() == a + b.drop_last());
        lemma_strokes_text_concat(a, b.drop_last());
    }
}

/// Appends each of `cells`, drawn alive or dead.
fn print_cells(cells: &Vec<Pos>, alive: bool, out: &mut Vec<char>)
    ensures
        final(out)@ == old(out)@ + strokes_text(strokes(cells@, alive)),
{
    let ghost list = strokes(cells@, alive);
    let mut i: usize = 0;
    while i < cells.len()
        invariant
            i <= cells.len(),
            list == strokes(cells@, alive),
            out@ == old(out)@ + strokes_text(list.take(i as int)),
        decreases cells.len() - i,
    {
        assert(list.take(i + 1).drop_last() == list.take(i as int));
        let (row, col) = cells[i];
        cursor_at(row as i64 + 1, col as i64 + 1, out);
        if alive {
            print_cell(out);
        } else {
            print_dead_cell(out);
        }
        out.push('\n');
        i += 1;
    }
    assert(list.take(cells.len() as int) == list);
}

/// Appends a frame: every live cell of `board`, then, as dead cells, the
/// cells of `prev_board` that `board` has not kept.
pub fn print_board(prev_board: &Vec<Pos>, board: &Vec<Pos>, out: &mut Vec<char>)
    ensures
        final(out)@ == old(out)@ + strokes_text(frame_strokes(prev_board@, board@)),
{
    print_cells(board, true, out);
    let gone: Vec<Pos> = subs(prev_board, board);
    proof {
        lemma_strokes_text_concat(strokes(board@, true), strokes(gone@, false));
    }
    print_cells(&gone, false, out);
}

/// How a frame gets onto the screen.
#[derive(Clone, Copy, Debug, PartialEq, Eq, Structural)]
pub enum Renderer {
    /// Every frame clears the screen and draws the live cells.
    FullClear,
    /// The screen is cleared and the border drawn once; after that a frame
    /// draws the live cells and wipes out the cells that have just died.
    Differential,
}

impl Renderer {
    /// What is written once, before the first frame: the cursor is hidden
    /// and, where frames do not clear the screen themselves, the screen is
    /// cleared and the border drawn.
    pub open spec fn start_text(self) -> Seq<char> {
        match self {
            Renderer::FullClear => hide_cursor_text(),
            Renderer::Differential => hide_cursor_text() + clear_screen_text() + frame_text(),
        }
    }

    /// What a frame writes when `prev` is on the screen and `curr` is to be
    /// shown.
    pub open spec fn frame_text(self, prev: Seq<Pos>, curr: Seq<Pos>) -> Seq<char> {
        match self {
            Renderer::FullClear => clear_screen_text() + strokes_text(strokes(curr, true)),
            Renderer::Differential => strokes_text(frame_strokes(prev, curr)),
        }
    }

    /// The cells that the screen shows alive after a frame, when it showed
    /// `prev` before.
    pub open spec fn shown(self, prev: Seq<Pos>, curr: Seq<Pos>) -> Set<Pos> {
        match self {
            Renderer::FullClear => shown_after(strokes(curr, true), Set::empty()),
            Renderer::Differential => shown_after(frame_strokes(prev, curr), prev.to_set()),
        }
    }

    /// Either way the screen shows the current generation after a frame.
    pub proof fn law_shows_current(self, prev: Seq<Pos>, curr: Seq<Pos>)
        ensures
            self.shown(prev, curr) == curr.to_set(),
    {
        match self {
            Renderer::FullClear => {
                lemma_shown_after_strokes(curr, true, Set::empty());
                assert(Set::<Pos>::empty().union(curr.to_set()) =~= curr.to_set());
            },
            Renderer::Differential => {
                law_frame_shows_current(prev, curr);
            },
        }
    }

    /// Appends what is written once, before the first frame.
    pub fn start(&self, out: &mut Vec<char>)
        ensures
            final(out)@ == old(out)@ + self.start_text(),
    {
        hide_cursor(out);
        match self {
            Renderer::FullClear => {},
            Renderer::Differential => {
                clear_screen(out);
                write_frame(out);
            },
        }
    }

    /// Appends a frame that shows `board` on a screen that shows
    /// `prev_board`.
    pub fn render(&self, prev_board: &Vec<Pos>, board: &Vec<Pos>, out: &mut Vec<char>)
        ensures
            final(out)@ == old(out)@ + self.frame_text(prev_board@, board@),
    {
        match self {
            Renderer::FullClear => {
                clear_screen(out);
                print_cells(board, true, out);
            },
            Renderer::Differential => {
                print_board(prev_board, board, out);
            },
        }
    }
}

} // verus!
