use tetris::{Direction, Piece, Rotation, State, Tetris, SPAWN_COL, SPAWN_LINE};

fn game_with(shape: Piece) -> Tetris {
    let mut game = Tetris::new(7);
    assert!(game.spawn_piece(shape));
    game
}

#[test]
fn rotation_add_wraps_around() {
    assert_eq!(Rotation::Spawn.add(Rotation::Right), Rotation::Right);
    assert_eq!(Rotation::Right.add(Rotation::Right), Rotation::Flip);
    assert_eq!(Rotation::Flip.add(Rotation::Right), Rotation::Left);
    assert_eq!(Rotation::Left.add(Rotation::Right), Rotation::Spawn);
    assert_eq!(Rotation::Spawn.add(Rotation::Left), Rotation::Left);
    assert_eq!(Rotation::Left.add(Rotation::Flip), Rotation::Right);
    assert_eq!(Rotation::Right.add(Rotation::Spawn), Rotation::Right);
}

#[test]
fn rotate_cw_on_empty_board_uses_no_kick() {
    let mut game = game_with(Piece::T);
    assert_eq!(game.active_anchor(), (SPAWN_LINE, SPAWN_COL));
    assert_eq!(game.active_rotation(), Rotation::Spawn);
    game.rot_active(Rotation::Right);
    assert_eq!(game.active_anchor(), (SPAWN_LINE, SPAWN_COL));
    assert_eq!(game.active_rotation(), Rotation::Right);
}

#[test]
fn rotate_ccw_against_wall_with_every_kick_blocked_is_rejected() {
    let mut game = game_with(Piece::T);
    assert!(game.move_active(Direction::Left));
    assert!(game.move_active(Direction::Left));
    assert!(game.move_active(Direction::Left));
    assert!(!game.move_active(Direction::Left));
    assert_eq!(game.active_anchor(), (3, 1));
    assert!(game.set_cell(4, 1, Piece::O));
    assert!(game.set_cell(4, 2, Piece::O));
    assert!(game.set_cell(1, 2, Piece::O));
    let mut before = Vec::new();
    for line in 0..tetris::BOARD_HEIGHT {
        for col in 0..tetris::BOARD_WIDTH {
            before.push(game.cell(line, col));
        }
    }
    game.rot_active(Rotation::Left);
    assert_eq!(game.active_anchor(), (3, 1));
    assert_eq!(game.active_rotation(), Rotation::Spawn);
    let mut after = Vec::new();
    for line in 0..tetris::BOARD_HEIGHT {
        for col in 0..tetris::BOARD_WIDTH {
            after.push(game.cell(line, col));
        }
    }
    assert_eq!(before, after);
}

#[test]
fn rotate_ccw_against_wall_kicks_when_free() {
    let mut game = game_with(Piece::T);
    for _ in 0..3 {
        assert!(game.move_active(Direction::Left));
    }
    assert!(game.set_cell(4, 1, Piece::O));
    game.rot_active(Rotation::Left);
    // the untranslated position is blocked below; the first kick moves right
    assert_eq!(game.active_anchor(), (3, 2));
    assert_eq!(game.active_rotation(), Rotation::Left);
    // a kicked rotation is not undone by the inverse: turning back fits in
    // place, one column right of where the piece started
    game.rot_active(Rotation::Right);
    assert_eq!(game.active_rotation(), Rotation::Spawn);
    assert_eq!(game.active_anchor(), (3, 2));
}

#[test]
fn unkicked_rotation_is_undone_by_inverse() {
    for shape in [Piece::T, Piece::J, Piece::L, Piece::S, Piece::Z, Piece::I] {
        let mut game = game_with(shape);
        assert!(game.move_active(Direction::Down));
        assert!(game.move_active(Direction::Down));
        let anchor = game.active_anchor();
        game.rot_active(Rotation::Right);
        assert_eq!(game.active_anchor(), anchor);
        assert_eq!(game.active_rotation(), Rotation::Right);
        game.rot_active(Rotation::Left);
        assert_eq!(game.active_anchor(), anchor);
        assert_eq!(game.active_rotation(), Rotation::Spawn);
    }
}

#[test]
fn half_turn_is_tested_in_place_only() {
    let mut game = game_with(Piece::T);
    game.rot_active(Rotation::Flip);
    assert_eq!(game.active_rotation(), Rotation::Flip);
    assert_eq!(game.active_anchor(), (SPAWN_LINE, SPAWN_COL));
    // block the cell below the anchor: the flat side of a spawn-state T
    // points up, a half turn would need (line + 1, col)
    let mut game = game_with(Piece::T);
    assert!(game.set_cell(SPAWN_LINE + 1, SPAWN_COL, Piece::O));
    game.rot_active(Rotation::Flip);
    assert_eq!(game.active_rotation(), Rotation::Spawn);
    assert_eq!(game.active_anchor(), (SPAWN_LINE, SPAWN_COL));
}

#[test]
fn o_piece_does_not_turn_a_quarter() {
    let mut game = game_with(Piece::O);
    game.rot_active(Rotation::Right);
    assert_eq!(game.active_rotation(), Rotation::Spawn);
    game.rot_active(Rotation::Left);
    assert_eq!(game.active_rotation(), Rotation::Spawn);
    game.rot_active(Rotation::Flip);
    assert_eq!(game.active_rotation(), Rotation::Spawn);
    assert_eq!(game.active_anchor(), (SPAWN_LINE, SPAWN_COL));
}

#[test]
fn i_piece_kick_table_applies() {
    let mut game = game_with(Piece::I);
    // anchor (3, 4): the I covers columns 3..=6 of line 3
    for _ in 0..3 {
        assert!(game.move_active(Direction::Left));
    }
    assert_eq!(game.active_anchor(), (3, 1));
    // Spawn -> Right needs (2..=5, 1); block (5, 1) so the first kick (0, -2)
    // is tried: column -1 is outside, then (0, 1) gives anchor (3, 2)
    assert!(game.set_cell(5, 1, Piece::O));
    game.rot_active(Rotation::Right);
    assert_eq!(game.active_rotation(), Rotation::Right);
    assert_eq!(game.active_anchor(), (3, 2));
}

#[test]
fn commands_are_ignored_unless_playing() {
    let mut game = Tetris::new(7);
    assert_eq!(game.state(), State::Paused);
    assert!(!game.move_active(Direction::Left));
    game.rot_active(Rotation::Right);
    game.swap();
    assert_eq!(game.get_hold(), None);
    assert_eq!(game.active_piece(), Piece::Empty);
}
