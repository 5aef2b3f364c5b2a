//! Properties that relate several steps of the game.

use crate::board::{
    clear_from, clear_lines, count_filled, drop_line, fits, grid_shaped,
    in_bounds, lemma_count_filled_bound, lemma_drop_step, lemma_empty_line_count, line_full,
    piece_cells, place, put, Grid, BOARD_HEIGHT, BOARD_WIDTH, PLAYABLE_TOP,
};
use crate::piece::{rot_add, rot_inverse, rotation_candidates, Piece, Rotation};
use crate::game::{first_fit, game_ok, locked, rotate_to, swap_step, State};
use vstd::prelude::*;

verus! {

/// A rotation that succeeds in place, with no kick, is undone by the inverse
/// rotation, which also succeeds in place.
pub proof fn lemma_unkicked_rotation_undone(
    g: Grid,
    shape: Piece,
    from: Rotation,
    line: int,
    col: int,
    req: Rotation,
)
    requires
        fits(g, shape, from, line, col),
        rotate_to(g, shape, from, line, col, req) == Some((line, col, rot_add(from, req))),
    ensures
        rot_add(rot_add(from, req), rot_inverse(req)) == from,
        rotate_to(g, shape, rot_add(from, req), line, col, rot_inverse(req)) == Some(
            (line, col, from),
        ),
{
    let to = rot_add(from, req);
    assert(rot_add(to, rot_inverse(req)) == from);
    if req != Rotation::Flip && rot_inverse(req) != Rotation::Flip {
        let back = rotation_candidates(shape, to, from);
        assert(rotation_candidates(shape, from, to).len() > 0);
        assert(back.len() > 0);
        assert(back[0] == (0int, 0int));
        assert(first_fit(g, shape, from, line, col, back, 0) == Some((line, col)));
    }
}

/// A hard drop ends in a position from which one more step down fails: the
/// piece fits at its drop line and not one line lower.
pub proof fn lemma_drop_lands(g: Grid, shape: Piece, rot: Rotation, line: int, col: int)
    requires
        fits(g, shape, rot, line, col),
    ensures
        drop_line(g, shape, rot, line, col) >= line,
        fits(g, shape, rot, drop_line(g, shape, rot, line, col), col),
        !fits(g, shape, rot, drop_line(g, shape, rot, line, col) + 1, col),
    decreases BOARD_HEIGHT - line,
{
    lemma_drop_step(g, shape, rot, line, col);
    if fits(g, shape, rot, line + 1, col) {
        lemma_drop_lands(g, shape, rot, line + 1, col);
    }
}

proof fn lemma_clear_from_shape(r: Grid, m: int, c: nat)
    requires
        grid_shaped(r),
        0 <= m <= BOARD_HEIGHT,
    ensures
        clear_from(r, m, c).len() == c + m,
        forall|l: int| 0 <= l < c + m ==> (#[trigger] clear_from(r, m, c)[l]).len() == BOARD_WIDTH,
        forall|l: int|
            PLAYABLE_TOP <= l < c + m ==> !line_full(#[trigger] clear_from(r, m, c)[l]),
    decreases m,
{
    lemma_empty_line_count();
    if m <= 0 {
    } else if c + m <= PLAYABLE_TOP {
        let s = clear_from(r, m, c);
        assert forall|l: int| 0 <= l < c + m implies (#[trigger] s[l]).len() == BOARD_WIDTH by {
            if l >= c {
                assert(s[l] == r[l - c]);
            }
        }
    } else if line_full(r[m - 1]) {
        lemma_clear_from_shape(r, m - 1, c + 1);
    } else {
        lemma_clear_from_shape(r, m - 1, c);
    }
}

/// The grid left by a lock has no full line in its playable region, and no
/// line holds more filled cells than the board is wide.
pub proof fn lemma_lock_leaves_no_full_line(v: crate::game::GameView, w: crate::game::GameView, r: crate::game::Transition)
    requires
        game_ok(v),
        v.state == State::Playing,
        locked(v, w, r),
    ensures
        grid_shaped(w.grid),
        forall|l: int| PLAYABLE_TOP <= l < BOARD_HEIGHT ==> !line_full(#[trigger] w.grid[l]),
        forall|l: int| 0 <= l < BOARD_HEIGHT ==> count_filled(#[trigger] w.grid[l]) <= BOARD_WIDTH,
{
    let g0 = place(v.grid, v.active, v.rot, v.line, v.col);
    lemma_place_shape(v.grid, v.active, v.rot, v.line, v.col);
    lemma_clear_from_shape(g0, BOARD_HEIGHT as int, 0);
    assert(w.grid == clear_lines(g0));
    assert forall|l: int| 0 <= l < BOARD_HEIGHT implies count_filled(#[trigger] w.grid[l])
        <= BOARD_WIDTH by {
        lemma_count_filled_bound(w.grid[l]);
    }
}

proof fn lemma_put_shape(g: Grid, l: int, c: int, p: Piece)
    requires
        grid_shaped(g),
        in_bounds(l, c),
    ensures
        grid_shaped(put(g, l, c, p)),
{
    let h = put(g, l, c, p);
    assert forall|i: int| 0 <= i < BOARD_HEIGHT implies (#[trigger] h[i]).len() == BOARD_WIDTH by {
        if i == l {
        }
    }
}

proof fn lemma_place_shape(g: Grid, shape: Piece, rot: Rotation, line: int, col: int)
    requires
        grid_shaped(g),
        fits(g, shape, rot, line, col),
    ensures
        grid_shaped(place(g, shape, rot, line, col)),
{
    let cells = piece_cells(shape, rot, line, col);
    crate::piece::lemma_offsets_small(shape, rot);
    assert(in_bounds(cells[0].0, cells[0].1));
    assert(in_bounds(cells[1].0, cells[1].1));
    assert(in_bounds(cells[2].0, cells[2].1));
    assert(in_bounds(cells[3].0, cells[3].1));
    let g1 = put(g, cells[0].0, cells[0].1, shape);
    lemma_put_shape(g, cells[0].0, cells[0].1, shape);
    let g2 = put(g1, cells[1].0, cells[1].1, shape);
    lemma_put_shape(g1, cells[1].0, cells[1].1, shape);
    let g3 = put(g2, cells[2].0, cells[2].1, shape);
    lemma_put_shape(g2, cells[2].0, cells[2].1, shape);
    lemma_put_shape(g3, cells[3].0, cells[3].1, shape);
}

/// Using the hold slot twice in a row: the second use changes nothing.
pub proof fn lemma_second_swap_noop(a: crate::game::GameView, b: crate::game::GameView, c: crate::game::GameView)
    requires
        swap_step(a, b),
        swap_step(b, c),
    ensures
        c == b,
{
}

} // verus!
