use tetris_core::game::TetrisGame;
use tetris_core::piece::Piece;
use tetris_core::tetromino::TetrominoType;

fn occupied_cells(g: &TetrisGame) -> usize {
    g.board.iter().filter(|c| c.is_some()).count()
}

fn single_cell_piece(x: i32, y: i32) -> Piece {
    Piece { piece_type: TetrominoType::O, shape: vec![vec![true]], x, y }
}

fn fill_row(g: &mut TetrisGame, y: usize) {
    for x in 0..10 {
        g.board[y * 10 + x] = Some(TetrominoType::I);
    }
}

fn assert_fresh(g: &TetrisGame) {
    assert_eq!(g.board.len(), 200);
    assert!(g.board.iter().all(|c| c.is_none()));
    assert_eq!(g.score, 0);
    assert_eq!(g.lines, 0);
    assert_eq!(g.level, 0);
    assert!(!g.is_game_over);
    assert!(!g.is_paused);
    assert_eq!(g.drop_timer, 0);
    assert_eq!(g.drop_interval, 60);
    let cur = g.current_piece.as_ref().expect("fresh engine has a current piece");
    assert_eq!(cur.x, 3);
    assert_eq!(cur.y, 0);
    assert_eq!(cur.shape, cur.piece_type.shape());
    assert_eq!(g.next_piece.x, 3);
    assert_eq!(g.next_piece.y, 0);
    assert_eq!(g.next_piece.shape, g.next_piece.piece_type.shape());
}

#[test]
fn test_new_engine_is_fresh() {
    let g = TetrisGame::new();
    assert_fresh(&g);
}

#[test]
fn test_reset_after_commands_is_fresh() {
    let mut g = TetrisGame::new();
    g.move_left();
    g.rotate();
    g.soft_drop();
    g.hard_drop();
    g.tick();
    g.toggle_pause();
    g.reset();
    assert_fresh(&g);
}

#[test]
fn test_shape_matrices() {
    assert_eq!(
        TetrominoType::I.shape(),
        vec![
            vec![false, false, false, false],
            vec![true, true, true, true],
            vec![false, false, false, false],
            vec![false, false, false, false],
        ]
    );
    assert_eq!(TetrominoType::O.shape(), vec![vec![true, true], vec![true, true]]);
    assert_eq!(
        TetrominoType::T.shape(),
        vec![vec![false, true, false], vec![true, true, true], vec![false, false, false]]
    );
    assert_eq!(
        TetrominoType::L.shape(),
        vec![vec![false, false, true], vec![true, true, true], vec![false, false, false]]
    );
}

#[test]
fn test_color_table() {
    assert_eq!(TetrominoType::I.color(), "#00FFFF");
    assert_eq!(TetrominoType::O.color(), "#FFFF00");
    assert_eq!(TetrominoType::T.color(), "#800080");
    assert_eq!(TetrominoType::S.color(), "#00FF00");
    assert_eq!(TetrominoType::Z.color(), "#FF0000");
    assert_eq!(TetrominoType::J.color(), "#0000FF");
    assert_eq!(TetrominoType::L.color(), "#FFA500");
}

#[test]
fn test_rotate_once() {
    let p = Piece::new(TetrominoType::I);
    let r = p.rotate();
    // rotated[j][3 - i] == shape[i][j]: the horizontal bar becomes a column.
    let expected = vec![
        vec![false, false, true, false],
        vec![false, false, true, false],
        vec![false, false, true, false],
        vec![false, false, true, false],
    ];
    assert_eq!(r.shape, expected);
    assert_eq!(r.x, p.x);
    assert_eq!(r.y, p.y);
    assert_eq!(r.piece_type, p.piece_type);
}

#[test]
fn test_rotate_four_times_is_identity() {
    for kind in [
        TetrominoType::I,
        TetrominoType::O,
        TetrominoType::T,
        TetrominoType::S,
        TetrominoType::Z,
        TetrominoType::J,
        TetrominoType::L,
    ] {
        let p = Piece::new(kind);
        let r = p.rotate().rotate().rotate().rotate();
        assert_eq!(r.shape, p.shape, "four rotations must restore {kind:?}");
    }
}

#[test]
fn test_clear_lines_no_complete_rows_is_noop() {
    let mut g = TetrisGame::new();
    g.current_piece = None;
    // scatter cells, every row incomplete
    for y in 0..20 {
        g.board[y * 10 + (y % 9)] = Some(TetrominoType::S);
    }
    let board_before = g.board.clone();
    let (score, lines, level) = (g.score, g.lines, g.level);
    g.clear_lines();
    assert_eq!(g.board, board_before);
    assert_eq!(g.score, score);
    assert_eq!(g.lines, lines);
    assert_eq!(g.level, level);
}

#[test]
fn test_scoring_table_level0() {
    let expected = [(1, 40), (2, 100), (3, 300), (4, 1200)];
    for (n, pts) in expected {
        let mut g = TetrisGame::new();
        g.current_piece = None;
        for k in 0..n {
            fill_row(&mut g, 19 - k);
        }
        g.clear_lines();
        assert_eq!(g.score, pts, "clearing {n} rows at level 0");
        assert_eq!(g.lines, n as u32);
    }
}

#[test]
fn test_scoring_table_level2() {
    let expected = [(1, 120), (2, 300), (3, 900), (4, 3600)];
    for (n, pts) in expected {
        let mut g = TetrisGame::new();
        g.current_piece = None;
        g.level = 2;
        g.drop_interval = 54; // the interval level 2 prescribes: 60 - 3 * 2
        for k in 0..n {
            fill_row(&mut g, 19 - k);
        }
        g.clear_lines();
        assert_eq!(g.score, pts, "clearing {n} rows at level 2");
    }
}

#[test]
fn test_level_transitions() {
    let mut g = TetrisGame::new();
    g.current_piece = None;

    g.lines = 9;
    fill_row(&mut g, 19);
    g.clear_lines();
    assert_eq!(g.lines, 10);
    assert_eq!(g.level, 1);
    assert_eq!(g.drop_interval, 57);

    g.lines = 19;
    fill_row(&mut g, 19);
    g.clear_lines();
    assert_eq!(g.lines, 20);
    assert_eq!(g.level, 2);
    assert_eq!(g.drop_interval, 54);

    g.lines = 29;
    fill_row(&mut g, 19);
    g.clear_lines();
    assert_eq!(g.lines, 30);
    assert_eq!(g.level, 3);
    assert_eq!(g.drop_interval, 51);
}

#[test]
fn test_multi_row_clear_shift_order() {
    // Rows 18 and 19 complete, a single marker above them in row 17:
    // clearing in ascending order drops the marker to the bottom row.
    let mut g = TetrisGame::new();
    g.current_piece = None;
    g.board[17 * 10] = Some(TetrominoType::T);
    fill_row(&mut g, 18);
    fill_row(&mut g, 19);
    g.clear_lines();
    assert_eq!(g.lines, 2);
    assert_eq!(g.score, 100);
    assert_eq!(g.board[19 * 10], Some(TetrominoType::T));
    assert_eq!(occupied_cells(&g), 1);
}

#[test]
fn test_hard_drop_on_resting_piece_returns_zero_and_does_not_lock() {
    let mut g = TetrisGame::new();
    g.current_piece = Some(single_cell_piece(5, 19));
    let score = g.score;
    let dist = g.hard_drop();
    assert_eq!(dist, 0);
    let cur = g.current_piece.as_ref().expect("piece must not lock");
    assert_eq!((cur.x, cur.y), (5, 19));
    assert_eq!(occupied_cells(&g), 0);
    assert_eq!(g.score, score);
}

#[test]
fn test_hard_drop_locks_and_scores_by_distance() {
    let mut g = TetrisGame::new();
    g.current_piece = Some(single_cell_piece(5, 0));
    let dist = g.hard_drop();
    assert_eq!(dist, 19);
    assert_eq!(g.score, 19);
    assert_eq!(g.board[19 * 10 + 5], Some(TetrominoType::O));
    // the queued piece spawned as the new current piece
    let cur = g.current_piece.as_ref().expect("a new piece spawns after the lock");
    assert_eq!((cur.x, cur.y), (3, 0));
}

#[test]
fn test_lock_conserves_cells() {
    let mut g = TetrisGame::new();
    let before = occupied_cells(&g);
    assert_eq!(before, 0);
    let piece_cells: usize = g
        .current_piece
        .as_ref()
        .unwrap()
        .shape
        .iter()
        .map(|row| row.iter().filter(|c| **c).count())
        .sum();
    assert_eq!(piece_cells, 4);
    let dist = g.hard_drop();
    assert!(dist > 0);
    // no row can complete from a single piece, so nothing was removed
    assert_eq!(occupied_cells(&g), piece_cells);
}

#[test]
fn test_move_left_at_boundary() {
    let mut g = TetrisGame::new();
    g.current_piece = Some(single_cell_piece(0, 10));
    assert!(!g.move_left());
    let cur = g.current_piece.as_ref().unwrap();
    assert_eq!((cur.x, cur.y), (0, 10));
}

#[test]
fn test_move_right_at_boundary() {
    let mut g = TetrisGame::new();
    g.current_piece = Some(single_cell_piece(9, 10));
    assert!(!g.move_right());
    let cur = g.current_piece.as_ref().unwrap();
    assert_eq!((cur.x, cur.y), (9, 10));
}

#[test]
fn test_moves_succeed_away_from_boundary() {
    let mut g = TetrisGame::new();
    g.current_piece = Some(single_cell_piece(5, 10));
    assert!(g.move_left());
    assert_eq!(g.current_piece.as_ref().unwrap().x, 4);
    assert!(g.move_right());
    assert_eq!(g.current_piece.as_ref().unwrap().x, 5);
}

#[test]
fn test_sixty_ticks_drop_one_row() {
    let mut g = TetrisGame::new();
    assert_eq!(g.drop_interval, 60);
    for _ in 0..60 {
        g.tick();
    }
    assert_eq!(g.drop_timer, 0);
    let cur = g.current_piece.as_ref().unwrap();
    assert_eq!(cur.y, 1);
    assert_eq!(cur.x, 3);
    assert_eq!(g.score, 1); // the gravity step is a scored soft drop
}

#[test]
fn test_single_line_clear_scenario() {
    // Row 19 complete except column 5; a piece occupying only that cell
    // locks there via gravity.
    let mut g = TetrisGame::new();
    for x in 0..10 {
        if x != 5 {
            g.board[19 * 10 + x] = Some(TetrominoType::J);
        }
    }
    g.current_piece = Some(single_cell_piece(5, 19));
    g.drop_timer = 59;
    let (score, lines) = (g.score, g.lines);
    g.tick();
    assert_eq!(g.lines, lines + 1);
    assert_eq!(g.score, score + 40 * (g.level + 1));
    for x in 0..10 {
        assert_eq!(g.board[19 * 10 + x], None, "row 19 must be empty after the clear");
    }
    assert!(!g.is_game_over);
}

#[test]
fn test_soft_drop_scores_one_point() {
    let mut g = TetrisGame::new();
    assert!(g.soft_drop());
    assert_eq!(g.score, 1);
    assert_eq!(g.current_piece.as_ref().unwrap().y, 1);
}

#[test]
fn test_soft_drop_fails_on_floor() {
    let mut g = TetrisGame::new();
    g.current_piece = Some(single_cell_piece(5, 19));
    assert!(!g.soft_drop());
    assert_eq!(g.score, 0);
    assert_eq!(g.current_piece.as_ref().unwrap().y, 19);
}

#[test]
fn test_pause_gates_commands() {
    let mut g = TetrisGame::new();
    g.toggle_pause();
    assert!(g.is_paused);
    assert!(!g.move_left());
    assert!(!g.move_right());
    assert!(!g.soft_drop());
    assert!(!g.rotate());
    assert_eq!(g.hard_drop(), 0);
    g.tick();
    assert_eq!(g.drop_timer, 0);
    assert_eq!(g.current_piece.as_ref().unwrap().y, 0);
    g.toggle_pause();
    assert!(!g.is_paused);
}

#[test]
fn test_game_over_on_blocked_spawn() {
    let mut g = TetrisGame::new();
    g.current_piece = None;
    // block the whole spawn region
    for y in 0..4 {
        for x in 3..7 {
            g.board[y * 10 + x] = Some(TetrominoType::Z);
        }
    }
    g.spawn_next_piece();
    assert!(g.is_game_over);
    assert!(g.current_piece.is_none());
    // game over gates every command but pause and reset
    assert!(!g.move_left());
    assert_eq!(g.hard_drop(), 0);
    g.reset();
    assert!(!g.is_game_over);
}

#[test]
fn test_rotation_rejected_when_blocked() {
    let mut g = TetrisGame::new();
    // a vertical I bar hugging the left wall cannot rotate if cells block it
    let bar = Piece::new(TetrominoType::I).rotate();
    g.current_piece = Some(Piece { x: 0, y: 10, ..bar });
    // block the row the horizontal bar would occupy
    for x in 0..4 {
        g.board[12 * 10 + x] = Some(TetrominoType::S);
    }
    let before = g.current_piece.as_ref().unwrap().shape.clone();
    assert!(!g.rotate());
    assert_eq!(g.current_piece.as_ref().unwrap().shape, before);
}

#[test]
fn test_is_valid_position_bounds_and_overlap() {
    let mut g = TetrisGame::new();
    assert!(g.is_valid_position(&single_cell_piece(0, 0)));
    assert!(g.is_valid_position(&single_cell_piece(9, 19)));
    assert!(!g.is_valid_position(&single_cell_piece(-1, 0)));
    assert!(!g.is_valid_position(&single_cell_piece(10, 0)));
    assert!(!g.is_valid_position(&single_cell_piece(0, -1)));
    assert!(!g.is_valid_position(&single_cell_piece(0, 20)));
    g.board[10 * 10 + 4] = Some(TetrominoType::T);
    assert!(!g.is_valid_position(&single_cell_piece(4, 10)));
    assert!(g.is_valid_position(&single_cell_piece(4, 9)));
}

#[test]
fn test_ghost_piece_projects_to_floor() {
    let mut g = TetrisGame::new();
    g.current_piece = Some(single_cell_piece(5, 0));
    let ghost_piece = g.get_ghost_piece();
    assert_eq!((ghost_piece.x, ghost_piece.y), (5, 19));
    // the query has no side effect
    assert_eq!(g.current_piece.as_ref().unwrap().y, 0);

    g.board[15 * 10 + 5] = Some(TetrominoType::L);
    g.current_piece = Some(single_cell_piece(5, 0));
    let ghost_piece = g.get_ghost_piece();
    assert_eq!(ghost_piece.y, 14);
}

#[test]
fn test_ghost_piece_fallback_without_current() {
    let mut g = TetrisGame::new();
    g.current_piece = None;
    let ghost_piece = g.get_ghost_piece();
    assert_eq!(ghost_piece.piece_type, TetrominoType::I);
    assert_eq!((ghost_piece.x, ghost_piece.y), (3, 0));
}

#[test]
fn test_random_draws_are_valid_kinds() {
    for _ in 0..50 {
        let k = TetrominoType::random();
        let shape = k.shape();
        let cells: usize = shape.iter().map(|r| r.iter().filter(|c| **c).count()).sum();
        assert_eq!(cells, 4, "every tetromino has four cells");
    }
}
