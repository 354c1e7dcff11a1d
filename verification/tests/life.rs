use lifegame::life::{is_alive, is_dead, live_cell_count, next_gen};
use lifegame::torus::Pos;

fn glider_cells() -> Vec<Pos> {
    vec![(0, 1), (1, 2), (2, 0), (2, 1), (2, 2)]
}

fn sorted_cells(cells: &Vec<Pos>) -> Vec<Pos> {
    let mut sorted: Vec<Pos> = cells.clone();
    sorted.sort();
    sorted
}

#[test]
fn is_alive_finds_the_cells_of_the_board() {
    let board: Vec<Pos> = glider_cells();
    assert!(is_alive((0, 1), &board));
    assert!(is_alive((2, 2), &board));
    assert!(!is_alive((0, 0), &board));
    assert!(!is_alive((1, 0), &board));
    assert!(!is_alive((0, 1), &Vec::new()));
}

#[test]
fn is_dead_is_the_opposite_of_is_alive() {
    let board: Vec<Pos> = glider_cells();
    for row in -1..20 {
        for col in -1..20 {
            assert_eq!(is_dead((row, col), &board), !is_alive((row, col), &board));
        }
    }
    assert!(is_dead((1, 1), &board));
    assert!(!is_dead((1, 2), &board));
}

#[test]
fn live_cell_count_round_the_glider() {
    let board: Vec<Pos> = glider_cells();
    assert_eq!(live_cell_count((1, 1), &board), 5);
    assert_eq!(live_cell_count((1, 0), &board), 3);
    assert_eq!(live_cell_count((3, 1), &board), 3);
    assert_eq!(live_cell_count((0, 1), &board), 1);
    assert_eq!(live_cell_count((2, 0), &board), 1);
    assert_eq!(live_cell_count((2, 1), &board), 3);
    assert_eq!(live_cell_count((2, 2), &board), 2);
    assert_eq!(live_cell_count((10, 10), &board), 0);
}

#[test]
fn live_cell_count_does_not_count_the_cell_itself() {
    let board: Vec<Pos> = vec![(5, 5)];
    assert_eq!(live_cell_count((5, 5), &board), 0);
    assert_eq!(live_cell_count((4, 4), &board), 1);
}

#[test]
fn live_cell_count_sees_across_the_edges() {
    let board: Vec<Pos> = vec![(18, 18)];
    assert_eq!(live_cell_count((0, 0), &board), 1);
    assert_eq!(live_cell_count((0, 18), &board), 1);
    assert_eq!(live_cell_count((18, 0), &board), 1);
    assert_eq!(live_cell_count((1, 1), &board), 0);
}

#[test]
fn live_cell_count_folds_a_cell_off_the_field_back_onto_it() {
    let board: Vec<Pos> = vec![(0, 0)];
    assert_eq!(live_cell_count((19, 19), &board), 0);
    assert_eq!(live_cell_count((20, 20), &board), 1);
    assert_eq!(live_cell_count((-20, -20), &board), 1);
    assert_eq!(live_cell_count((-37, -37), &board), 1);
    assert_eq!(live_cell_count((i32::MIN, i32::MAX), &vec![(15, 1)]), 1);
    assert_eq!(live_cell_count((i32::MIN, i32::MAX), &vec![(16, 2)]), 0);
}

#[test]
fn live_cell_count_of_a_full_neighbourhood() {
    let board: Vec<Pos> =
        vec![(4, 6), (4, 7), (4, 8), (5, 6), (5, 7), (5, 8), (6, 6), (6, 7), (6, 8)];
    assert_eq!(live_cell_count((5, 7), &board), 8);
}

#[test]
fn live_cell_count_counts_a_repeated_cell_once() {
    let board: Vec<Pos> = vec![(4, 4), (4, 4), (4, 4)];
    assert_eq!(live_cell_count((5, 5), &board), 1);
}

#[test]
fn next_gen_of_nothing_is_nothing() {
    let empty: Vec<Pos> = Vec::new();
    assert_eq!(next_gen(&empty), empty);
}

#[test]
fn next_gen_lets_a_single_cell_die() {
    let empty: Vec<Pos> = Vec::new();
    for row in 0..19 {
        for col in 0..19 {
            assert_eq!(next_gen(&vec![(row, col)]), empty);
        }
    }
}

#[test]
fn next_gen_lets_a_pair_die() {
    let empty: Vec<Pos> = Vec::new();
    assert_eq!(next_gen(&vec![(3, 3), (3, 4)]), empty);
}

#[test]
fn next_gen_keeps_the_block() {
    let block: Vec<Pos> = vec![(0, 0), (0, 1), (1, 0), (1, 1)];
    assert_eq!(next_gen(&block), block);
    let shuffled: Vec<Pos> = vec![(1, 1), (0, 0), (1, 0), (0, 1)];
    assert_eq!(next_gen(&shuffled), block);
}

#[test]
fn next_gen_moves_the_glider_on() {
    let expected: Vec<Pos> = vec![(1, 0), (1, 2), (2, 1), (2, 2), (3, 1)];
    assert_eq!(next_gen(&glider_cells()), expected);
}

#[test]
fn next_gen_shifts_the_glider_by_one_cell_in_four_generations() {
    let mut board: Vec<Pos> = glider_cells();
    for _ in 0..4 {
        board = next_gen(&board);
    }
    let expected: Vec<Pos> = vec![(1, 2), (2, 3), (3, 1), (3, 2), (3, 3)];
    assert_eq!(board, expected);
}

#[test]
fn next_gen_carries_the_glider_round_the_torus() {
    let mut board: Vec<Pos> = glider_cells();
    for _ in 0..4 * 19 {
        board = next_gen(&board);
    }
    assert_eq!(board, sorted_cells(&glider_cells()));
}

#[test]
fn next_gen_turns_the_blinker() {
    let flat: Vec<Pos> = vec![(1, 0), (1, 1), (1, 2)];
    let upright: Vec<Pos> = vec![(0, 1), (1, 1), (2, 1)];
    assert_eq!(next_gen(&flat), upright);
    assert_eq!(next_gen(&upright), flat);
}

#[test]
fn next_gen_turns_a_blinker_across_the_edge() {
    let flat: Vec<Pos> = vec![(0, 18), (0, 0), (0, 1)];
    let upright: Vec<Pos> = vec![(0, 0), (1, 0), (18, 0)];
    assert_eq!(next_gen(&flat), upright);
}

#[test]
fn next_gen_lets_a_crowded_cell_die() {
    let plus: Vec<Pos> = vec![(4, 5), (5, 4), (5, 5), (5, 6), (6, 5)];
    let next: Vec<Pos> = next_gen(&plus);
    assert!(!next.contains(&(5, 5)));
    let ring: Vec<Pos> =
        vec![(4, 4), (4, 5), (4, 6), (5, 4), (5, 6), (6, 4), (6, 5), (6, 6)];
    assert_eq!(next, ring);
}

#[test]
fn next_gen_drops_cells_off_the_field() {
    let empty: Vec<Pos> = Vec::new();
    let board: Vec<Pos> = vec![(19, 19), (19, 20), (20, 19), (20, 20), (-1, -1)];
    assert_eq!(next_gen(&board), empty);
}

#[test]
fn next_gen_does_not_mind_repeated_cells() {
    let flat: Vec<Pos> = vec![(1, 0), (1, 1), (1, 2), (1, 1), (1, 0)];
    let upright: Vec<Pos> = vec![(0, 1), (1, 1), (2, 1)];
    assert_eq!(next_gen(&flat), upright);
}

#[test]
fn next_gen_lists_each_cell_once_row_by_row() {
    let mut board: Vec<Pos> = vec![(9, 8), (9, 9), (8, 9), (10, 9), (10, 10)];
    for _ in 0..60 {
        board = next_gen(&board);
        for i in 1..board.len() {
            assert!(board[i - 1] < board[i]);
        }
        for &(row, col) in &board {
            assert!(0 <= row && row < 19 && 0 <= col && col < 19);
        }
    }
}
