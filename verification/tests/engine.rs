use game_of_life::game_of_life::{GameOfLife, TRAIL_LIFETIME_MAX};

/// Recomputes the live-neighbor tally of every cell from scratch, straight
/// from the liveness flags, with toroidal wrap-around.
fn reference_counts(game: &GameOfLife) -> Vec<Vec<i8>> {
    let board = game.board();
    let rows = board.len();
    let columns = board[0].len();
    let mut counts = vec![vec![0i8; columns]; rows];
    for y in 0..rows {
        for x in 0..columns {
            let t = if y == 0 { rows - 1 } else { y - 1 };
            let b = if y + 1 >= rows { 0 } else { y + 1 };
            let l = if x == 0 { columns - 1 } else { x - 1 };
            let r = if x + 1 >= columns { 0 } else { x + 1 };
            let mut n = 0i8;
            for (cx, cy) in [
                (x, t),
                (l, t),
                (r, t),
                (l, y),
                (r, y),
                (x, b),
                (l, b),
                (r, b),
            ] {
                if board[cy][cx].alive {
                    n += 1;
                }
            }
            counts[y][x] = n;
        }
    }
    counts
}

fn assert_cache_matches(game: &GameOfLife) {
    let expected = reference_counts(game);
    let board = game.board();
    for y in 0..board.len() {
        for x in 0..board[0].len() {
            assert_eq!(
                board[y][x].neighbors, expected[y][x],
                "cache mismatch at ({x}, {y})"
            );
        }
    }
}

fn alive_set(game: &GameOfLife) -> Vec<(usize, usize)> {
    let board = game.board();
    let mut live = Vec::new();
    for y in 0..board.len() {
        for x in 0..board[0].len() {
            if board[y][x].alive {
                live.push((x, y));
            }
        }
    }
    live
}

#[test]
fn new_board_has_given_shape_and_zero_generation() {
    let game = GameOfLife::new(10, 12);
    assert_eq!(game.board().len(), 10);
    assert_eq!(game.board()[0].len(), 12);
    assert_eq!(*game.step(), 0);
    assert_cache_matches(&game);
}

#[test]
fn cleared_board_is_all_zero() {
    let mut game = GameOfLife::new(3, 3);
    game.create_cleared_board(5, 7);
    let board = game.board();
    assert_eq!(board.len(), 5);
    assert_eq!(board[0].len(), 7);
    assert_eq!(*game.step(), 0);
    for row in board {
        for cell in row {
            assert!(!cell.alive);
            assert_eq!(cell.neighbors, 0);
            assert_eq!(cell.trail_lifetime, 0);
        }
    }
}

#[test]
fn zero_ratio_gives_all_dead_board() {
    let mut game = GameOfLife::new(3, 3);
    game.create_random_board(6, 6, 0, 1);
    for row in game.board() {
        for cell in row {
            assert!(!cell.alive);
            assert_eq!(cell.trail_lifetime, 0);
        }
    }
}

#[test]
fn full_ratio_gives_all_live_board_with_full_trails() {
    let mut game = GameOfLife::new(3, 3);
    game.create_random_board(6, 6, 1, 1);
    for row in game.board() {
        for cell in row {
            assert!(cell.alive);
            assert_eq!(cell.trail_lifetime, TRAIL_LIFETIME_MAX);
            assert_eq!(cell.neighbors, 8);
        }
    }
}

#[test]
fn random_board_cache_is_consistent() {
    let game = GameOfLife::new(9, 11);
    assert_cache_matches(&game);
    let board = game.board();
    for row in board {
        for cell in row {
            let expected = if cell.alive { TRAIL_LIFETIME_MAX } else { 0 };
            assert_eq!(cell.trail_lifetime, expected);
        }
    }
}

#[test]
fn toggle_updates_exactly_the_eight_neighbors() {
    let mut game = GameOfLife::new(3, 3);
    game.create_cleared_board(5, 5);
    game.toggle_cell(2, 2);
    let board = game.board();
    assert!(board[2][2].alive);
    assert_eq!(board[2][2].trail_lifetime, TRAIL_LIFETIME_MAX);
    assert_eq!(board[2][2].neighbors, 0);
    for y in 0..5 {
        for x in 0..5 {
            let adjacent =
                (1..=3).contains(&x) && (1..=3).contains(&y) && !(x == 2 && y == 2);
            let expected = if adjacent { 1 } else { 0 };
            assert_eq!(board[y][x].neighbors, expected);
        }
    }
    game.toggle_cell(2, 2);
    let board = game.board();
    assert!(!board[2][2].alive);
    for row in board {
        for cell in row {
            assert_eq!(cell.neighbors, 0);
        }
    }
}

#[test]
fn set_cell_with_current_value_changes_nothing() {
    let mut game = GameOfLife::new(3, 3);
    game.create_cleared_board(4, 4);
    game.toggle_cell(1, 1);
    let before: Vec<Vec<(bool, i8, u8)>> = game
        .board()
        .iter()
        .map(|row| {
            row.iter()
                .map(|c| (c.alive, c.neighbors, c.trail_lifetime))
                .collect()
        })
        .collect();
    game.set_cell(1, 1, true);
    game.set_cell(2, 2, false);
    let after: Vec<Vec<(bool, i8, u8)>> = game
        .board()
        .iter()
        .map(|row| {
            row.iter()
                .map(|c| (c.alive, c.neighbors, c.trail_lifetime))
                .collect()
        })
        .collect();
    assert_eq!(before, after);
    assert_eq!(*game.step(), 0);
}

#[test]
fn toggling_origin_updates_wrapped_neighbors() {
    let mut game = GameOfLife::new(3, 3);
    game.create_cleared_board(4, 5);
    game.toggle_cell(0, 0);
    let board = game.board();
    // The three wrap-around neighbors of (0, 0) on a 5-wide, 4-tall board.
    assert_eq!(board[0][4].neighbors, 1);
    assert_eq!(board[3][0].neighbors, 1);
    assert_eq!(board[3][4].neighbors, 1);
    // The three non-wrapped neighbors.
    assert_eq!(board[0][1].neighbors, 1);
    assert_eq!(board[1][0].neighbors, 1);
    assert_eq!(board[1][1].neighbors, 1);
    assert_eq!(board[1][4].neighbors, 1);
    assert_eq!(board[3][1].neighbors, 1);
    // Non-adjacent cells are untouched.
    assert_eq!(board[0][0].neighbors, 0);
    assert_eq!(board[2][2].neighbors, 0);
    assert_eq!(board[0][2].neighbors, 0);
    assert_eq!(board[2][0].neighbors, 0);
}

#[test]
fn cache_stays_consistent_over_mixed_mutations() {
    let mut game = GameOfLife::new(8, 8);
    assert_cache_matches(&game);
    game.toggle_cell(0, 0);
    assert_cache_matches(&game);
    game.toggle_cell(7, 7);
    assert_cache_matches(&game);
    game.set_cell(3, 4, true);
    assert_cache_matches(&game);
    game.update();
    assert_cache_matches(&game);
    game.toggle_cell(5, 2);
    assert_cache_matches(&game);
    game.update();
    assert_cache_matches(&game);
    game.clear_board();
    assert_cache_matches(&game);
}

#[test]
fn all_dead_board_is_a_fixed_point() {
    let mut game = GameOfLife::new(3, 3);
    game.create_cleared_board(4, 4);
    game.update();
    assert_eq!(*game.step(), 1);
    for row in game.board() {
        for cell in row {
            assert!(!cell.alive);
            assert_eq!(cell.neighbors, 0);
            assert_eq!(cell.trail_lifetime, 0);
        }
    }
}

#[test]
fn block_is_a_still_life() {
    let mut game = GameOfLife::new(3, 3);
    game.create_cleared_board(6, 6);
    for (x, y) in [(2, 2), (3, 2), (2, 3), (3, 3)] {
        game.toggle_cell(x, y);
    }
    let block = alive_set(&game);
    for round in 0..4 {
        game.update();
        assert_eq!(alive_set(&game), block, "block changed at round {round}");
        assert_cache_matches(&game);
    }
}

#[test]
fn blinker_oscillates_with_period_two() {
    let mut game = GameOfLife::new(3, 3);
    game.create_cleared_board(7, 7);
    for (x, y) in [(2, 3), (3, 3), (4, 3)] {
        game.toggle_cell(x, y);
    }
    let horizontal = alive_set(&game);
    game.update();
    assert_eq!(alive_set(&game), vec![(3, 2), (3, 3), (3, 4)]);
    // Cells born by the rule snap to a full trail on that same step.
    assert_eq!(game.board()[2][3].trail_lifetime, TRAIL_LIFETIME_MAX);
    assert_eq!(game.board()[4][3].trail_lifetime, TRAIL_LIFETIME_MAX);
    // Cells that just died start fading from the full trail.
    assert_eq!(game.board()[3][2].trail_lifetime, TRAIL_LIFETIME_MAX - 5);
    game.update();
    assert_eq!(alive_set(&game), horizontal);
    assert_eq!(*game.step(), 2);
}

#[test]
fn trail_decays_by_five_per_generation_and_resets_on_rebirth() {
    let mut game = GameOfLife::new(3, 3);
    game.create_cleared_board(6, 6);
    game.toggle_cell(1, 1);
    assert_eq!(game.board()[1][1].trail_lifetime, 100);
    // A lone cell dies on the first step and starts fading from the maximum.
    game.update();
    assert!(!game.board()[1][1].alive);
    assert_eq!(game.board()[1][1].trail_lifetime, 95);
    for k in 2..=20u8 {
        game.update();
        assert_eq!(game.board()[1][1].trail_lifetime, 100 - 5 * k);
    }
    game.update();
    assert_eq!(game.board()[1][1].trail_lifetime, 0);
    game.update();
    assert_eq!(game.board()[1][1].trail_lifetime, 0);
    // Rebirth snaps the trail back to the maximum on that same step.
    game.toggle_cell(1, 1);
    assert_eq!(game.board()[1][1].trail_lifetime, 100);
}

#[test]
fn generation_counter_increments_once_per_update() {
    let mut game = GameOfLife::new(4, 4);
    assert_eq!(*game.step(), 0);
    game.update();
    assert_eq!(*game.step(), 1);
    game.update();
    game.update();
    assert_eq!(*game.step(), 3);
    game.clear_board();
    assert_eq!(*game.step(), 3);
    game.create_random_board(4, 4, 2, 5);
    assert_eq!(*game.step(), 0);
}

#[test]
fn tiny_boards_count_coinciding_slots_once_per_slot() {
    // On a one-by-one board all eight neighbor slots land on the cell itself.
    let mut game = GameOfLife::new(1, 1);
    game.create_cleared_board(1, 1);
    game.toggle_cell(0, 0);
    assert_eq!(game.board()[0][0].neighbors, 8);
    assert_cache_matches(&game);

    // On a two-by-two board each pair of cells shares several slots.
    let mut game = GameOfLife::new(2, 2);
    game.create_cleared_board(2, 2);
    game.toggle_cell(0, 0);
    let board = game.board();
    assert_eq!(board[0][0].neighbors, 0);
    assert_eq!(board[0][1].neighbors, 2);
    assert_eq!(board[1][0].neighbors, 2);
    assert_eq!(board[1][1].neighbors, 4);
    assert_cache_matches(&game);
}
