use tetris::{
    Direction, Piece, Rotation, State, Tetris, Transition, BOARD_HEIGHT, BOARD_WIDTH,
    PLAYABLE_TOP, SPAWN_COL, SPAWN_LINE,
};

fn game_with(shape: Piece) -> Tetris {
    let mut game = Tetris::new(7);
    assert!(game.spawn_piece(shape));
    game
}

fn locked_cells(game: &Tetris) -> usize {
    let mut n = 0;
    for line in 0..BOARD_HEIGHT {
        n += game.board().row_count(line) as usize;
    }
    n
}

#[test]
fn new_game_is_paused_and_empty() {
    let game = Tetris::new(7);
    assert_eq!(game.state(), State::Paused);
    assert_eq!(game.get_hold(), None);
    assert_eq!(locked_cells(&game), 0);
    assert!(game.board().is_empty());
}

#[test]
fn start_spawns_front_of_queue() {
    let mut game = Tetris::new(7);
    let next = game.get_queue()[0];
    game.start(1000);
    assert_eq!(game.state(), State::Playing);
    assert_eq!(game.active_piece(), next);
    assert_eq!(game.active_anchor(), (SPAWN_LINE, SPAWN_COL));
    assert_eq!(game.active_rotation(), Rotation::Spawn);
    assert_eq!(game.preview(100).len(), 13);
}

#[test]
fn moves_stop_at_walls() {
    let mut game = game_with(Piece::O);
    // O covers columns 4 and 5
    for _ in 0..4 {
        assert!(game.move_active(Direction::Left));
    }
    assert!(!game.move_active(Direction::Left));
    assert_eq!(game.active_anchor(), (SPAWN_LINE, 0));
    for _ in 0..8 {
        assert!(game.move_active(Direction::Right));
    }
    assert!(!game.move_active(Direction::Right));
    assert_eq!(game.active_anchor(), (SPAWN_LINE, 8));
}

#[test]
fn softdrop_instant_lands_where_down_fails() {
    let mut game = game_with(Piece::T);
    game.softdrop_instant(10);
    assert_eq!(game.state(), State::Playing);
    // spawn-state T: anchor line is the lowest line of the piece
    assert_eq!(game.active_anchor(), (BOARD_HEIGHT - 1, SPAWN_COL));
    assert_eq!(game.projection(), BOARD_HEIGHT - 1);
    assert!(!game.move_active(Direction::Down));
}

#[test]
fn projection_is_landing_line() {
    let mut game = game_with(Piece::I);
    assert!(game.set_cell(20, 5, Piece::O));
    assert_eq!(game.projection(), 19);
    assert_eq!(game.active_anchor(), (SPAWN_LINE, SPAWN_COL));
}

#[test]
fn harddrop_lands_on_stack_and_locks() {
    let mut game = game_with(Piece::I);
    assert!(game.set_cell(20, 5, Piece::O));
    let r = game.harddrop(50);
    assert_eq!(r, Transition::Locked);
    for col in 3..7 {
        assert_eq!(game.board().get(19, col), Piece::I);
    }
    assert_eq!(game.board().row_count(19), 4);
    assert_eq!(locked_cells(&game), 5);
    assert_eq!(game.state(), State::Playing);
    assert_eq!(game.active_anchor(), (SPAWN_LINE, SPAWN_COL));
}

#[test]
fn harddrop_completing_bottom_line_clears_and_shifts() {
    let mut game = game_with(Piece::I);
    let bottom = BOARD_HEIGHT - 1;
    for col in [0, 1, 2, 7, 8, 9] {
        assert!(game.set_cell(bottom, col, Piece::O));
    }
    assert!(game.set_cell(bottom - 1, 0, Piece::T));
    assert!(game.set_cell(bottom - 2, 9, Piece::J));
    assert_eq!(game.board().row_count(bottom), 6);
    let r = game.harddrop(50);
    assert_eq!(r, Transition::LinesCleared(1));
    assert_eq!(game.board().get(bottom as i32, 0), Piece::T);
    assert_eq!(game.board().get(bottom as i32 - 1, 9), Piece::J);
    assert_eq!(game.board().row_count(bottom), 1);
    assert_eq!(game.board().row_count(bottom - 1), 1);
    assert_eq!(game.board().row_count(bottom - 2), 0);
    assert_eq!(game.board().row_count(0), 0);
    assert_eq!(locked_cells(&game), 2);
    for line in PLAYABLE_TOP..BOARD_HEIGHT {
        assert!(game.board().row_count(line) < BOARD_WIDTH as u8);
    }
}

#[test]
fn clearing_every_cell_is_a_perfect_clear() {
    let mut game = game_with(Piece::I);
    let bottom = BOARD_HEIGHT - 1;
    for col in [0, 1, 2, 7, 8, 9] {
        assert!(game.set_cell(bottom, col, Piece::O));
    }
    let r = game.harddrop(50);
    assert_eq!(r, Transition::PerfectClear);
    assert_eq!(game.state(), State::Paused);
    assert!(game.board().is_empty());
    assert_eq!(game.update(100_000), Transition::Idle);
    assert!(!game.move_active(Direction::Left));
}

#[test]
fn two_lines_cleared_at_once() {
    let mut game = game_with(Piece::O);
    let bottom = BOARD_HEIGHT - 1;
    for line in [bottom - 1, bottom] {
        for col in 0..BOARD_WIDTH {
            if col != 4 && col != 5 {
                assert!(game.set_cell(line, col, Piece::L));
            }
        }
    }
    assert!(game.set_cell(bottom - 2, 2, Piece::S));
    assert_eq!(game.harddrop(5), Transition::LinesCleared(2));
    assert_eq!(game.board().get(bottom as i32, 2), Piece::S);
    assert_eq!(locked_cells(&game), 1);
}

#[test]
fn spawn_into_taken_cells_tops_out() {
    let mut game = game_with(Piece::T);
    for _ in 0..3 {
        assert!(game.move_active(Direction::Right));
    }
    assert!(game.set_cell(SPAWN_LINE, SPAWN_COL, Piece::Z));
    let r = game.harddrop(7);
    assert_eq!(r, Transition::ToppedOut);
    assert_eq!(game.state(), State::ToppedOut);
    assert_eq!(game.board().get(SPAWN_LINE as i32, SPAWN_COL as i32), Piece::Z);
    assert!(!game.move_active(Direction::Down));
    assert_eq!(game.harddrop(8), Transition::Idle);
}

#[test]
fn spawn_piece_refuses_empty_and_reports_top_out() {
    let mut game = Tetris::new(7);
    assert!(!game.spawn_piece(Piece::Empty));
    assert_eq!(game.state(), State::Paused);
    assert!(game.set_cell(SPAWN_LINE, SPAWN_COL, Piece::Z));
    assert!(!game.spawn_piece(Piece::T));
    assert_eq!(game.state(), State::ToppedOut);
}

#[test]
fn set_cell_refuses_outside_and_under_active_piece() {
    let mut game = game_with(Piece::T);
    assert!(!game.set_cell(BOARD_HEIGHT, 0, Piece::O));
    assert!(!game.set_cell(0, BOARD_WIDTH, Piece::O));
    assert!(!game.set_cell(SPAWN_LINE, SPAWN_COL, Piece::O));
    assert!(!game.set_cell(SPAWN_LINE - 1, SPAWN_COL, Piece::O));
    assert_eq!(locked_cells(&game), 0);
    assert_eq!(game.cell(SPAWN_LINE, SPAWN_COL), Piece::T);
    assert_eq!(game.cell(SPAWN_LINE, SPAWN_COL + 2), Piece::Empty);
}

#[test]
fn board_reads_outside_as_filled() {
    let game = Tetris::new(7);
    assert_eq!(game.board().get(-1, 0), Piece::O);
    assert_eq!(game.board().get(0, -1), Piece::O);
    assert_eq!(game.board().get(BOARD_HEIGHT as i32, 0), Piece::O);
    assert_eq!(game.board().get(0, BOARD_WIDTH as i32), Piece::O);
    assert_eq!(game.board().get(0, 0), Piece::Empty);
    assert!(!game.board().is_free(-1, 0));
    assert!(game.board().is_free(0, 0));
}

#[test]
fn gravity_moves_by_whole_intervals() {
    let mut game = Tetris::new(7);
    game.start(1000);
    let line = game.active_anchor().0;
    assert_eq!(game.update(1199), Transition::Idle);
    assert_eq!(game.active_anchor().0, line);
    assert_eq!(game.update(1200), Transition::Idle);
    assert_eq!(game.active_anchor().0, line + 1);
    // 3 more intervals counted from 1200
    assert_eq!(game.update(1850), Transition::Idle);
    assert_eq!(game.active_anchor().0, line + 4);
    // the leftover 50 ms count toward the next line
    assert_eq!(game.update(2000), Transition::Idle);
    assert_eq!(game.active_anchor().0, line + 5);
}

#[test]
fn earlier_timestamp_skips_the_tick() {
    let mut game = Tetris::new(7);
    game.start(1000);
    let anchor = game.active_anchor();
    assert_eq!(game.update(500), Transition::Idle);
    assert_eq!(game.active_anchor(), anchor);
    assert_eq!(game.update(1200), Transition::Idle);
    assert_eq!(game.active_anchor().0, anchor.0 + 1);
}

#[test]
fn soft_drop_divides_gravity_interval() {
    let mut game = Tetris::new(7);
    game.start(0);
    let line = game.active_anchor().0;
    game.softdrop_start(4);
    assert_eq!(game.update(150), Transition::Idle);
    assert_eq!(game.active_anchor().0, line + 3);
    game.softdrop_stop();
    assert_eq!(game.update(300), Transition::Idle);
    assert_eq!(game.active_anchor().0, line + 3);
    assert_eq!(game.update(350), Transition::Idle);
    assert_eq!(game.active_anchor().0, line + 4);
    game.softdrop_start(0);
    assert_eq!(game.update(549), Transition::Idle);
    assert_eq!(game.active_anchor().0, line + 4);
}

#[test]
fn landed_piece_locks_after_lock_delay() {
    let mut game = Tetris::new(7);
    game.start(0);
    let piece = game.active_piece();
    game.softdrop_instant(0);
    let landed = game.active_anchor();
    // gravity finds the piece landed at its timestamp 0
    assert_eq!(game.update(200), Transition::Idle);
    assert_eq!(game.active_anchor(), landed);
    assert_eq!(game.update(500), Transition::Idle);
    assert_eq!(locked_cells(&game), 0);
    assert_eq!(game.update(501), Transition::Locked);
    assert_eq!(locked_cells(&game), 4);
    assert_eq!(game.board().get(landed.0 as i32, landed.1 as i32), piece);
    assert_eq!(game.active_anchor(), (SPAWN_LINE, SPAWN_COL));
}

#[test]
fn moving_a_landed_piece_restarts_lock_delay() {
    let mut game = Tetris::new(7);
    game.start(0);
    game.softdrop_instant(0);
    assert_eq!(game.update(400), Transition::Idle);
    let moved = game.move_active(Direction::Left) || game.move_active(Direction::Right);
    assert!(moved);
    // the delay now counts from 400
    assert_eq!(game.update(800), Transition::Idle);
    assert_eq!(locked_cells(&game), 0);
    assert_eq!(game.update(901), Transition::Locked);
    assert_eq!(locked_cells(&game), 4);
}

#[test]
fn too_many_lock_resets_lock_at_once() {
    let mut game = Tetris::new(7);
    game.start(0);
    game.softdrop_instant(0);
    assert_eq!(game.update(10), Transition::Idle);
    for i in 0..21 {
        let dir = if i % 2 == 0 { Direction::Left } else { Direction::Right };
        assert!(game.move_active(dir));
    }
    assert_eq!(game.update(11), Transition::Locked);
}

#[test]
fn swap_holds_piece_and_second_swap_is_noop() {
    let mut game = Tetris::new(7);
    game.start(0);
    let first = game.active_piece();
    let next = game.get_queue()[0];
    assert!(game.move_active(Direction::Down));
    game.swap();
    assert_eq!(game.get_hold(), Some(first));
    assert_eq!(game.active_piece(), next);
    assert_eq!(game.active_anchor(), (SPAWN_LINE, SPAWN_COL));
    let queue = game.preview(100);
    let anchor = game.active_anchor();
    game.swap();
    assert_eq!(game.get_hold(), Some(first));
    assert_eq!(game.active_piece(), next);
    assert_eq!(game.active_anchor(), anchor);
    assert_eq!(game.preview(100), queue);
}

#[test]
fn swap_with_held_piece_exchanges_after_lock() {
    let mut game = Tetris::new(7);
    game.start(0);
    let first = game.active_piece();
    game.swap();
    let second = game.active_piece();
    let queue = game.preview(100);
    assert_eq!(game.harddrop(10), Transition::Locked);
    let third = game.active_piece();
    assert_eq!(third, queue[0]);
    game.swap();
    assert_eq!(game.active_piece(), first);
    assert_eq!(game.get_hold(), Some(third));
    assert_ne!(second, Piece::Empty);
}
