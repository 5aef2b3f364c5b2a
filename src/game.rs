//! The game: the active piece moving over the board, gravity and lock delay,
//! locking with line clears, the hold slot and spawning.

use crate::board::{
    cell_free, clear_lines, drop_line, fits, grid_empty, grid_shaped, in_bounds,
    lemma_drop_step, lemma_fits_anchor, lines_cleared, piece_cells, place, put, Board, Grid,
    BOARD_HEIGHT, BOARD_WIDTH,
};
use crate::piece::{
    candidates, lemma_offsets_small, offsets, rot_add, rotation_candidates, shape_offsets,
    Direction, Piece, Rotation,
};
use crate::queue::{bag_at, bag_window, lemma_bag_shapes, popped, PieceQueue};
use crate::board::{line_full, PLAYABLE_TOP};
use crate::laws::lemma_lock_leaves_no_full_line;
use vstd::prelude::*;

verus! {

/// Line of the anchor of a freshly spawned piece, inside the buffer.
pub const SPAWN_LINE: usize = 3;

/// Column of the anchor of a freshly spawned piece.
pub const SPAWN_COL: usize = 4;

#[derive(Clone, Copy, PartialEq, Eq, Structural, Debug)]
pub enum State {
    /// No piece in play: before the start, or after a perfect clear.
    Paused,
    /// A piece is in play and takes commands.
    Playing,
    /// A spawn found its cells taken; the game is over.
    ToppedOut,
}

/// What a tick or a hard drop did.
#[derive(Clone, Copy, PartialEq, Eq, Structural, Debug)]
pub enum Transition {
    /// No piece was locked.
    Idle,
    /// A piece was locked, no line was cleared and the next piece is in play.
    Locked,
    /// A piece was locked, that many lines were cleared and the next piece
    /// is in play.
    LinesCleared(u32),
    /// A piece was locked and the board is empty; the game is paused.
    PerfectClear,
    /// A piece was locked and the next piece had no room.
    ToppedOut,
}

/// The state of a game as the contracts see it.
pub ghost struct GameView {
    pub grid: Grid,
    pub queue: Seq<Piece>,
    /// The pieces taken from the front of the queue so far, oldest first.
    pub dealt: Seq<Piece>,
    pub active: Piece,
    pub rot: Rotation,
    pub line: int,
    pub col: int,
    pub hold: Piece,
    pub state: State,
    pub swapped: bool,
    pub clock: u64,
    pub lock_timestamp: Option<u64>,
    pub gravity_timestamp: Option<u64>,
    pub lock_reset_count: u32,
    pub gravity: u32,
    pub current_gravity: u32,
    pub lock_delay: u32,
    pub max_lock_reset_count: u32,
}

/// The invariant of a game: an in-play piece always sits on free cells.
pub open spec fn game_ok(v: GameView) -> bool {
    &&& grid_shaped(v.grid)
    &&& 0 <= v.line < BOARD_HEIGHT
    &&& 0 <= v.col < BOARD_WIDTH
    &&& 7 <= v.queue.len() <= 14
    &&& forall|i: int| 0 <= i < v.queue.len() ==> v.queue[i] != Piece::Empty
    &&& v.state == State::Playing ==> v.active != Piece::Empty && fits(
        v.grid,
        v.active,
        v.rot,
        v.line,
        v.col,
    )
}

/// `w` has taken the front of `v`'s queue: the piece joins the dealt ones
/// and the queue is refilled as `popped` says.
pub open spec fn dealt_next(v: GameView, w: GameView) -> bool {
    &&& popped(v.queue, w.queue)
    &&& w.dealt == v.dealt.push(v.queue[0])
}

/// `w` has the queue of `v`, with nothing dealt.
pub open spec fn same_queue(v: GameView, w: GameView) -> bool {
    w.queue == v.queue && w.dealt == v.dealt
}

/// The game after a piece is put at the spawn position with fresh timers:
/// in play where it fits, topped out where it does not.
pub open spec fn spawned(v: GameView, w: GameView, shape: Piece) -> bool {
    &&& w.grid == v.grid
    &&& w.active == shape
    &&& w.rot == Rotation::Spawn
    &&& w.line == SPAWN_LINE
    &&& w.col == SPAWN_COL
    &&& w.state == if fits(v.grid, shape, Rotation::Spawn, SPAWN_LINE as int, SPAWN_COL as int) {
        State::Playing
    } else {
        State::ToppedOut
    }
    &&& w.lock_timestamp.is_none()
    &&& w.lock_reset_count == 0
    &&& w.gravity_timestamp == Some(v.clock)
    &&& w.clock == v.clock
    &&& w.hold == v.hold
    &&& w.swapped == v.swapped
    &&& w.gravity == v.gravity
    &&& w.current_gravity == v.current_gravity
    &&& w.lock_delay == v.lock_delay
    &&& w.max_lock_reset_count == v.max_lock_reset_count
}

/// The anchor after one step in a direction; lines grow downward.
pub open spec fn shifted(dir: Direction, line: int, col: int) -> (int, int) {
    match dir {
        Direction::Down => (line + 1, col),
        Direction::Left => (line, col - 1),
        Direction::Right => (line, col + 1),
    }
}

/// The game with the active piece's anchor moved.
pub open spec fn moved_to(v: GameView, line: int, col: int) -> GameView {
    GameView { line, col, ..v }
}

/// A successful move or rotation of a landed piece restarts its lock delay
/// from the latest timestamp and counts one reset.
pub open spec fn lock_refreshed(v: GameView) -> GameView {
    if v.lock_timestamp.is_some() {
        GameView {
            lock_timestamp: Some(v.clock),
            lock_reset_count: if v.lock_reset_count < u32::MAX {
                (v.lock_reset_count + 1) as u32
            } else {
                v.lock_reset_count
            },
            ..v
        }
    } else {
        v
    }
}

/// The anchor of the first candidate, from the `k`-th on, at which the
/// piece fits in rotation `to`.
pub open spec fn first_fit(
    g: Grid,
    shape: Piece,
    to: Rotation,
    line: int,
    col: int,
    cands: Seq<(int, int)>,
    k: int,
) -> Option<(int, int)>
    decreases cands.len() - k,
{
    if k < 0 || k >= cands.len() {
        None
    } else if fits(g, shape, to, line + cands[k].0, col + cands[k].1) {
        Some((line + cands[k].0, col + cands[k].1))
    } else {
        first_fit(g, shape, to, line, col, cands, k + 1)
    }
}

/// Where a rotation by `req` takes a piece: the O piece never turns; a half
/// turn is tried in place only; a quarter turn tries the untranslated position and then the wall
/// kicks, and takes the first that fits. `None` where the piece stays.
pub open spec fn rotate_to(
    g: Grid,
    shape: Piece,
    from: Rotation,
    line: int,
    col: int,
    req: Rotation,
) -> Option<(int, int, Rotation)> {
    let to = rot_add(from, req);
    if shape == Piece::O {
        None
    } else if req == Rotation::Flip {
        if fits(g, shape, to, line, col) {
            Some((line, col, to))
        } else {
            None
        }
    } else {
        match first_fit(g, shape, to, line, col, rotation_candidates(shape, from, to), 0) {
            Some(p) => Some((p.0, p.1, to)),
            None => None,
        }
    }
}

/// The game with the active piece's anchor and rotation set.
pub open spec fn turned_to(v: GameView, line: int, col: int, rot: Rotation) -> GameView {
    GameView { line, col, rot, ..v }
}

/// The game having seen a timestamp: the clock never goes back.
pub open spec fn observed(v: GameView, ts: u64) -> GameView {
    GameView { clock: if ts > v.clock { ts } else { v.clock }, ..v }
}

/// The game with the active piece moved down as far as it goes.
pub open spec fn dropped(v: GameView) -> GameView {
    moved_to(v, drop_line(v.grid, v.active, v.rot, v.line, v.col), v.col)
}

/// Locking the active piece of `v` gives `w` and reports `r`: the piece is
/// written into the grid and full playable lines are cleared. An empty grid
/// is a perfect clear and pauses the game; otherwise the next piece of the
/// queue spawns.
pub open spec fn locked(v: GameView, w: GameView, r: Transition) -> bool {
    let g0 = place(v.grid, v.active, v.rot, v.line, v.col);
    let g = clear_lines(g0);
    let n = lines_cleared(g0);
    let u = GameView { grid: g, swapped: false, ..v };
    if grid_empty(g) {
        &&& r == Transition::PerfectClear
        &&& w == GameView {
            state: State::Paused,
            lock_timestamp: None,
            lock_reset_count: 0,
            gravity_timestamp: Some(v.clock),
            ..u
        }
    } else {
        &&& dealt_next(v, w)
        &&& spawned(u, w, v.queue[0])
        &&& r == if w.state == State::ToppedOut {
            Transition::ToppedOut
        } else if n > 0 {
            Transition::LinesCleared(n as u32)
        } else {
            Transition::Locked
        }
    }
}

/// One use of the hold slot, allowed once per piece: the active piece goes
/// into the slot and the held one, or else the front of the queue, spawns.
pub open spec fn swap_step(v: GameView, w: GameView) -> bool {
    if v.state != State::Playing || v.swapped {
        w == v
    } else {
        let u = GameView { swapped: true, hold: v.active, ..v };
        if v.hold == Piece::Empty {
            dealt_next(v, w) && spawned(u, w, v.queue[0])
        } else {
            same_queue(v, w) && spawned(u, w, v.hold)
        }
    }
}

/// How many lines gravity owes the active piece at `ts`: the whole fall
/// intervals since the gravity timestamp. None while gravity is inactive,
/// off (a zero interval) or the clock went back.
pub open spec fn gravity_moves(v: GameView, ts: u64) -> int {
    match v.gravity_timestamp {
        Some(gt) => if v.current_gravity > 0 && ts >= gt {
            (ts - gt) / (v.current_gravity as int)
        } else {
            0
        },
        None => 0,
    }
}

/// A landed piece locks once its lock delay has passed, or once it has
/// been moved more often than the reset cap allows.
pub open spec fn lock_due(v: GameView, ts: u64) -> bool {
    match v.lock_timestamp {
        Some(lt) => ts >= lt && (ts - lt > v.lock_delay || v.lock_reset_count
            > v.max_lock_reset_count),
        None => false,
    }
}

/// A tick at `ts` takes `v` to `w` and reports `r`. Gravity moves the piece
/// down by the owed lines; where it lands on the way, the lock delay starts
/// at the moment of landing, gravity stops and the tick ends. Otherwise the
/// gravity timestamp advances by the time used, and a piece whose lock is
/// due is locked.
pub open spec fn ticked(v: GameView, ts: u64, w: GameView, r: Transition) -> bool {
    let o = observed(v, ts);
    let k = gravity_moves(v, ts);
    let gt = v.gravity_timestamp.unwrap();
    let cg = v.current_gravity as int;
    let dl = drop_line(v.grid, v.active, v.rot, v.line, v.col);
    if k > 0 && dl - v.line < k {
        &&& r == Transition::Idle
        &&& w == (GameView {
            line: dl,
            gravity_timestamp: None,
            lock_timestamp: Some((gt + (dl - v.line) * cg) as u64),
            ..o
        })
    } else {
        let m = if k > 0 {
            GameView { line: v.line + k, gravity_timestamp: Some((gt + k * cg) as u64), ..o }
        } else {
            o
        };
        if lock_due(m, ts) {
            locked(m, w, r)
        } else {
            w == m && r == Transition::Idle
        }
    }
}

/// Whether the active piece of `v` covers the cell (`l`, `c`).
pub open spec fn covers(v: GameView, l: int, c: int) -> bool {
    exists|k: int| 0 <= k < 4 && #[trigger] piece_cells(v.active, v.rot, v.line, v.col)[k] == (l, c)
}

/// What a cell shows: the active piece where it is in play over the cell,
/// else the locked cell.
pub open spec fn shown(v: GameView, l: int, c: int) -> Piece {
    if v.state == State::Playing && covers(v, l, c) {
        v.active
    } else {
        v.grid[l][c]
    }
}

/// A game: the board of locked cells, the piece in play, the queue, the
/// hold slot and the timers of gravity and lock delay. Timestamps are
/// milliseconds on the caller's clock.
pub struct Tetris {
    board: Board,
    queue: PieceQueue,
    piece_active: Piece,
    swap_piece: Piece,
    line_active: usize,
    col_active: usize,
    rot_active: Rotation,
    state: State,
    /// Whether the hold slot was used during this piece's lifetime.
    swapped: bool,
    /// The latest timestamp the game has been given, in milliseconds.
    clock: u64,
    /// When the piece first could not move down; `None` while it falls.
    lock_timestamp: Option<u64>,
    /// From when gravity is counted; `None` once the piece has landed.
    gravity_timestamp: Option<u64>,
    lock_reset_count: u32,
    /// Milliseconds per line of fall, without soft drop.
    gravity: u32,
    /// Milliseconds per line of fall, as soft drop has it now.
    current_gravity: u32,
    /// Milliseconds a landed piece waits before it locks.
    lock_delay: u32,
    /// Moves of a landed piece after which it locks at once.
    max_lock_reset_count: u32,
}

impl View for Tetris {
    type V = GameView;

    closed spec fn view(&self) -> GameView {
        GameView {
            grid: self.board@,
            queue: self.queue@,
            dealt: self.queue.dealt(),
            active: self.piece_active,
            rot: self.rot_active,
            line: self.line_active as int,
            col: self.col_active as int,
            hold: self.swap_piece,
            state: self.state,
            swapped: self.swapped,
            clock: self.clock,
            lock_timestamp: self.lock_timestamp,
            gravity_timestamp: self.gravity_timestamp,
            lock_reset_count: self.lock_reset_count,
            gravity: self.gravity,
            current_gravity: self.current_gravity,
            lock_delay: self.lock_delay,
            max_lock_reset_count: self.max_lock_reset_count,
        }
    }
}

impl Tetris {
    /// The board keeps its line counts and the queue its bags.
    pub closed spec fn parts_wf(&self) -> bool {
        &&& self.board.wf()
        &&& self.queue.wf()
    }

    /// The invariant that every operation keeps.
    pub open spec fn wf(&self) -> bool {
        &&& self.parts_wf()
        &&& game_ok(self@)
    }

    /// The queue of a game ends in whole bags, each holding every shape
    /// exactly once. The pieces dealt so far followed by the queue are
    /// whole bags too, from the first piece on: every run of seven aligned
    /// to the start holds each shape exactly once.
    pub proof fn lemma_queue_bags(&self)
        requires
            self.wf(),
        ensures
            forall|k: int, p: Piece|
                0 <= k < self@.queue.len() / 7 && p != Piece::Empty ==> (#[trigger] bag_window(
                    self@.queue,
                    k,
                ).to_multiset().count(p)) == 1,
            (self@.dealt + self@.queue).len() % 7 == 0,
            forall|k: int, p: Piece|
                0 <= k < (self@.dealt + self@.queue).len() / 7 && p != Piece::Empty ==> (
                #[trigger] bag_at(self@.dealt + self@.queue, k).to_multiset().count(p)) == 1,
    {
        assert forall|k: int, p: Piece|
            0 <= k < (self@.dealt + self@.queue).len() / 7 && p != Piece::Empty implies (
            #[trigger] bag_at(self@.dealt + self@.queue, k).to_multiset().count(p)) == 1 by {
            lemma_bag_shapes(bag_at(self@.dealt + self@.queue, k));
        }
        assert forall|k: int, p: Piece|
            0 <= k < self@.queue.len() / 7 && p != Piece::Empty implies (#[trigger] bag_window(
            self@.queue,
            k,
        ).to_multiset().count(p)) == 1 by {
            lemma_bag_shapes(bag_window(self@.queue, k));
        }
    }

    /// A paused game on an empty board with two bags waiting and nothing
    /// held; `seed` seeds the shuffling of the bags.
    pub fn new(seed: u64) -> (t: Tetris)
        ensures
            t.wf(),
            t@.state == State::Paused,
            t@.grid == crate::board::empty_lines(BOARD_HEIGHT as nat),
            t@.queue.len() == 14,
            t@.dealt == Seq::<Piece>::empty(),
            t@.hold == Piece::Empty,
            t@.active == Piece::Empty,
            !t@.swapped,
            t@.lock_timestamp.is_none(),
            t@.gravity_timestamp.is_none(),
            t@.lock_reset_count == 0,
            t@.gravity == 200,
            t@.current_gravity == 200,
            t@.lock_delay == 500,
            t@.max_lock_reset_count == 20,
            t@.clock == 0,
    {
        let board = Board::new();
        let queue = PieceQueue::new(seed);
        proof {
            board.lemma_shaped();
        }
        Tetris {
            board,
            queue,
            piece_active: Piece::Empty,
            swap_piece: Piece::Empty,
            swapped: false,
            line_active: 0,
            col_active: 0,
            rot_active: Rotation::Spawn,
            state: State::Paused,
            clock: 0,
            lock_timestamp: None,
            gravity_timestamp: None,
            lock_reset_count: 0,
            gravity: 200,
            current_gravity: 200,
            lock_delay: 500,
            max_lock_reset_count: 20,
        }
    }

    /// Puts `shape` at the spawn position with fresh timers; the game plays
    /// on where it fits and is topped out where it does not.
    fn spawn_shape(&mut self, shape: Piece)
        requires
            old(self).wf(),
            shape != Piece::Empty,
        ensures
            final(self).wf(),
            same_queue(old(self)@, final(self)@),
            spawned(old(self)@, final(self)@, shape),
    {
        proof {
            self.board.lemma_shaped();
        }
        self.piece_active = shape;
        self.rot_active = Rotation::Spawn;
        self.line_active = SPAWN_LINE;
        self.col_active = SPAWN_COL;
        self.lock_timestamp = None;
        self.lock_reset_count = 0;
        self.gravity_timestamp = Some(self.clock);
        if self.board.fits_at(shape, Rotation::Spawn, SPAWN_LINE as i32, SPAWN_COL as i32) {
            self.state = State::Playing;
        } else {
            self.state = State::ToppedOut;
        }
    }

    /// Spawns the given shape, or the front of the queue where none is given.
    fn spawn_next(&mut self, piece: Option<Piece>)
        requires
            old(self).wf(),
            piece != Some(Piece::Empty),
        ensures
            final(self).wf(),
            piece.is_none() ==> dealt_next(old(self)@, final(self)@) && spawned(
                old(self)@,
                final(self)@,
                old(self)@.queue[0],
            ),
            piece.is_some() ==> same_queue(old(self)@, final(self)@) && spawned(
                old(self)@,
                final(self)@,
                piece.unwrap(),
            ),
    {
        let shape = match piece {
            Some(p) => p,
            None => self.queue.pop_next(),
        };
        self.spawn_shape(shape);
    }

    /// Moves the active piece one step where the cells there are free.
    fn try_move(&mut self, dir: Direction) -> (r: bool)
        requires
            old(self).wf(),
            old(self)@.state == State::Playing,
        ensures
            final(self).wf(),
            r == fits(
                old(self)@.grid,
                old(self)@.active,
                old(self)@.rot,
                shifted(dir, old(self)@.line, old(self)@.col).0,
                shifted(dir, old(self)@.line, old(self)@.col).1,
            ),
            r ==> final(self)@ == moved_to(
                old(self)@,
                shifted(dir, old(self)@.line, old(self)@.col).0,
                shifted(dir, old(self)@.line, old(self)@.col).1,
            ),
            !r ==> final(self)@ == old(self)@,
    {
        let la = self.line_active as i32;
        let ca = self.col_active as i32;
        let (l, c): (i32, i32) = match dir {
            Direction::Down => (la + 1, ca),
            Direction::Left => (la, ca - 1),
            Direction::Right => (la, ca + 1),
        };
        if self.board.fits_at(self.piece_active, self.rot_active, l, c) {
            proof {
                lemma_fits_anchor(self.board@, self.piece_active, self.rot_active, l as int, c as int);
            }
            self.line_active = l as usize;
            self.col_active = c as usize;
            true
        } else {
            false
        }
    }

    /// Restarts the lock delay of a landed piece after it moved.
    fn refresh_lock(&mut self)
        requires
            old(self).wf(),
        ensures
            final(self).wf(),
            final(self)@ == lock_refreshed(old(self)@),
    {
        if self.lock_timestamp.is_some() {
            self.lock_timestamp = Some(self.clock);
            if self.lock_reset_count < u32::MAX {
                self.lock_reset_count = self.lock_reset_count + 1;
            }
        }
    }

    /// Moves the active piece one step in `dir` where the cells there are
    /// free; a landed piece that moves has its lock delay restarted. Does
    /// nothing unless a piece is in play.
    pub fn move_active(&mut self, dir: Direction) -> (r: bool)
        requires
            old(self).wf(),
        ensures
            final(self).wf(),
            old(self)@.state != State::Playing ==> !r && final(self)@ == old(self)@,
            old(self)@.state == State::Playing ==> {
                let (l, c) = shifted(dir, old(self)@.line, old(self)@.col);
                &&& r == fits(old(self)@.grid, old(self)@.active, old(self)@.rot, l, c)
                &&& r ==> final(self)@ == lock_refreshed(moved_to(old(self)@, l, c))
                &&& !r ==> final(self)@ == old(self)@
            },
    {
        if self.state != State::Playing {
            return false;
        }
        let r = self.try_move(dir);
        if r {
            self.refresh_lock();
        }
        r
    }

    /// Rotates the active piece by `rot` (see `rotate_to`); a landed piece
    /// that turns has its lock delay restarted. Where no candidate fits the
    /// piece stays as it was. Does nothing unless a piece is in play.
    pub fn rot_active(&mut self, rot: Rotation)
        requires
            old(self).wf(),
        ensures
            final(self).wf(),
            old(self)@.state != State::Playing ==> final(self)@ == old(self)@,
            old(self)@.state == State::Playing ==> match rotate_to(
                old(self)@.grid,
                old(self)@.active,
                old(self)@.rot,
                old(self)@.line,
                old(self)@.col,
                rot,
            ) {
                Some((l, c, t)) => final(self)@ == lock_refreshed(turned_to(old(self)@, l, c, t)),
                None => final(self)@ == old(self)@,
            },
    {
        if self.state != State::Playing || self.piece_active == Piece::O {
            return;
        }
        let ghost v = self@;
        let target = self.rot_active.add(rot);
        let la = self.line_active as i32;
        let ca = self.col_active as i32;
        if rot == Rotation::Flip {
            if self.board.fits_at(self.piece_active, target, la, ca) {
                self.rot_active = target;
                self.refresh_lock();
            }
            return;
        }
        let tests = candidates(self.piece_active, self.rot_active, target);
        let ghost cands = rotation_candidates(v.active, v.rot, target);
        proof {
            crate::piece::lemma_candidates_small(v.active, v.rot, target);
        }
        match tests {
            None => {
                assert(first_fit(v.grid, v.active, target, v.line, v.col, cands, 0).is_none());
            },
            Some(tests) => {
                let mut k: usize = 0;
                while k < 5
                    invariant
                        k <= 5,
                        self@ == v,
                        old(self)@ == v,
                        target == rot_add(v.rot, rot),
                        rot != Rotation::Flip,
                        cands == rotation_candidates(v.active, v.rot, target),
                        self.wf(),
                        v.state == State::Playing,
                        la == v.line,
                        ca == v.col,
                        cands.len() == 5,
                        forall|j: int|
                            0 <= j < 5 ==> (#[trigger] tests@[j]).0 as int == cands[j].0
                                && tests@[j].1 as int == cands[j].1,
                        forall|j: int| 0 <= j < 5 ==> -2 <= (#[trigger] cands[j]).0 <= 2 && -2
                            <= cands[j].1 <= 2,
                        first_fit(v.grid, v.active, target, v.line, v.col, cands, 0) == first_fit(
                            v.grid,
                            v.active,
                            target,
                            v.line,
                            v.col,
                            cands,
                            k as int,
                        ),
                    decreases 5 - k,
                {
                    let (dl, dc) = tests[k];
                    assert(-2 <= dl <= 2 && -2 <= dc <= 2) by {
                        assert(tests@[k as int].0 as int == cands[k as int].0);
                        assert(tests@[k as int].1 as int == cands[k as int].1);
                    }
                    if self.board.fits_at(self.piece_active, target, la + dl, ca + dc) {
                        proof {
                            assert(first_fit(v.grid, v.active, target, v.line, v.col, cands, k as int)
                                == Some(((la + dl) as int, (ca + dc) as int)));
                            lemma_fits_anchor(v.grid, v.active, target, (la + dl) as int, (ca + dc) as int);
                        }
                        self.line_active = (la + dl) as usize;
                        self.col_active = (ca + dc) as usize;
                        self.rot_active = target;
                        assert(self@ == turned_to(v, (la + dl) as int, (ca + dc) as int, target));
                        assert(rot_add(v.rot, rot) == target);
                        assert(rotate_to(v.grid, v.active, v.rot, v.line, v.col, rot) == Some(
                            ((la + dl) as int, (ca + dc) as int, target),
                        ));
                        self.refresh_lock();
                        return;
                    }
                    k = k + 1;
                }
            },
        }
    }

    fn observe(&mut self, ts: u64)
        requires
            old(self).wf(),
        ensures
            final(self).wf(),
            final(self)@ == observed(old(self)@, ts),
    {
        if ts > self.clock {
            self.clock = ts;
        }
    }

    /// Moves the active piece down until the cells below are taken.
    fn drop_down(&mut self)
        requires
            old(self).wf(),
            old(self)@.state == State::Playing,
        ensures
            final(self).wf(),
            final(self)@ == dropped(old(self)@),
    {
        let ghost v = self@;
        loop
            invariant
                self.wf(),
                self@.state == State::Playing,
                self@ == moved_to(v, self@.line, v.col),
                v == old(self)@,
                drop_line(v.grid, v.active, v.rot, self@.line, v.col) == drop_line(
                    v.grid,
                    v.active,
                    v.rot,
                    v.line,
                    v.col,
                ),
            ensures
                self.wf(),
                self@ == dropped(v),
            decreases BOARD_HEIGHT - self.line_active,
        {
            proof {
                lemma_drop_step(v.grid, v.active, v.rot, self@.line, v.col);
            }
            if !self.try_move(Direction::Down) {
                break;
            }
        }
    }

    /// Writes the active piece into the board, clears full lines and spawns
    /// the next piece, or pauses on a perfect clear.
    fn lock_active(&mut self) -> (r: Transition)
        requires
            old(self).wf(),
            old(self)@.state == State::Playing,
        ensures
            final(self).wf(),
            locked(old(self)@, final(self)@, r),
    {
        let ghost v = self@;
        self.state = State::Paused;
        self.swapped = false;
        self.board.place(self.piece_active, self.rot_active, self.line_active, self.col_active);
        let n = self.board.clear_lines();
        proof {
            self.board.lemma_shaped();
        }
        if self.board.is_empty() {
            self.lock_timestamp = None;
            self.lock_reset_count = 0;
            self.gravity_timestamp = Some(self.clock);
            return Transition::PerfectClear;
        }
        self.spawn_next(None);
        if self.state == State::ToppedOut {
            Transition::ToppedOut
        } else if n > 0 {
            Transition::LinesCleared(n)
        } else {
            Transition::Locked
        }
    }

    /// Drops the active piece as far as it goes and locks it at once,
    /// whatever the lock delay. Does nothing unless a piece is in play.
    pub fn harddrop(&mut self, timestamp: u64) -> (r: Transition)
        requires
            old(self).wf(),
        ensures
            final(self).wf(),
            old(self)@.state != State::Playing ==> final(self)@ == old(self)@ && r
                == Transition::Idle,
            old(self)@.state == State::Playing ==> locked(
                dropped(observed(old(self)@, timestamp)),
                final(self)@,
                r,
            ),
            old(self)@.state == State::Playing ==> forall|l: int|
                PLAYABLE_TOP <= l < BOARD_HEIGHT ==> !line_full(#[trigger] final(self)@.grid[l]),
    {
        if self.state != State::Playing {
            return Transition::Idle;
        }
        self.observe(timestamp);
        self.drop_down();
        let ghost m = self@;
        let r = self.lock_active();
        proof {
            lemma_lock_leaves_no_full_line(m, self@, r);
        }
        r
    }

    /// Drops the active piece as far as it goes and starts its lock delay
    /// at `timestamp`; it stays in play. Does nothing unless a piece is in
    /// play.
    pub fn softdrop_instant(&mut self, timestamp: u64)
        requires
            old(self).wf(),
        ensures
            final(self).wf(),
            old(self)@.state != State::Playing ==> final(self)@ == old(self)@,
            old(self)@.state == State::Playing ==> final(self)@ == dropped(
                (GameView { lock_timestamp: Some(timestamp), ..observed(old(self)@, timestamp) }),
            ),
    {
        if self.state != State::Playing {
            return;
        }
        self.observe(timestamp);
        self.lock_timestamp = Some(timestamp);
        self.drop_down();
    }

    /// Divides the fall interval by `factor` while soft drop is held; a zero
    /// factor changes nothing. Does nothing unless a piece is in play.
    pub fn softdrop_start(&mut self, factor: u32)
        requires
            old(self).wf(),
        ensures
            final(self).wf(),
            old(self)@.state == State::Playing && factor > 0 ==> final(self)@ == (GameView {
                current_gravity: (old(self)@.current_gravity / factor) as u32,
                ..old(self)@
            }),
            old(self)@.state != State::Playing || factor == 0 ==> final(self)@ == old(self)@,
    {
        if self.state == State::Playing && factor > 0 {
            self.current_gravity = self.current_gravity / factor;
        }
    }

    /// Restores the fall interval when soft drop is released. Does nothing
    /// unless a piece is in play.
    pub fn softdrop_stop(&mut self)
        requires
            old(self).wf(),
        ensures
            final(self).wf(),
            old(self)@.state == State::Playing ==> final(self)@ == (GameView {
                current_gravity: old(self)@.gravity,
                ..old(self)@
            }),
            old(self)@.state != State::Playing ==> final(self)@ == old(self)@,
    {
        if self.state == State::Playing {
            self.current_gravity = self.gravity;
        }
    }

    /// Exchanges the active piece with the hold slot, once per piece: the
    /// held piece spawns, or the front of the queue where the slot was
    /// empty. Does nothing unless a piece is in play.
    pub fn swap(&mut self)
        requires
            old(self).wf(),
        ensures
            final(self).wf(),
            swap_step(old(self)@, final(self)@),
    {
        if self.state != State::Playing || self.swapped {
            return;
        }
        self.swapped = true;
        let held = self.swap_piece;
        self.swap_piece = self.piece_active;
        if held == Piece::Empty {
            self.spawn_next(None);
        } else {
            self.spawn_next(Some(held));
        }
    }

    /// Starts play at `timestamp` with the front of the queue.
    pub fn start(&mut self, timestamp: u64)
        requires
            old(self).wf(),
        ensures
            final(self).wf(),
            dealt_next(old(self)@, final(self)@),
            spawned(observed(old(self)@, timestamp), final(self)@, old(self)@.queue[0]),
    {
        self.observe(timestamp);
        self.spawn_next(None);
    }

    /// The tick at `timestamp`, in milliseconds: applies gravity, then
    /// locks the piece where its lock is due (see `ticked`). A timestamp
    /// earlier than the timers' skips them. Does nothing unless a piece is
    /// in play.
    pub fn update(&mut self, timestamp: u64) -> (r: Transition)
        requires
            old(self).wf(),
        ensures
            final(self).wf(),
            old(self)@.state != State::Playing ==> final(self)@ == old(self)@ && r
                == Transition::Idle,
            old(self)@.state == State::Playing ==> ticked(old(self)@, timestamp, final(self)@, r),
            r != Transition::Idle ==> forall|l: int|
                PLAYABLE_TOP <= l < BOARD_HEIGHT ==> !line_full(#[trigger] final(self)@.grid[l]),
    {
        if self.state != State::Playing {
            return Transition::Idle;
        }
        let ghost v = self@;
        self.observe(timestamp);
        let ghost o = self@;
        let ghost dl = drop_line(v.grid, v.active, v.rot, v.line, v.col);
        proof {
            lemma_drop_step(v.grid, v.active, v.rot, v.line, v.col);
        }
        if let Some(gt) = self.gravity_timestamp {
            let cg = self.current_gravity as u64;
            if cg > 0 && timestamp >= gt {
                let moves: u64 = (timestamp - gt) / cg;
                proof {
                    assert(moves * cg <= timestamp - gt) by (nonlinear_arith)
                        requires
                            moves == (timestamp - gt) / (cg as int),
                            cg > 0,
                            timestamp >= gt,
                    ;
                }
                if moves > 0 {
                    let mut i: u64 = 0;
                    while i < moves
                        invariant
                            self.wf(),
                            self@.state == State::Playing,
                            o == observed(v, timestamp),
                            v == old(self)@,
                            dl == drop_line(v.grid, v.active, v.rot, v.line, v.col),
                            i <= moves,
                            v.line + i <= dl,
                            self@ == moved_to(o, v.line + i, v.col),
                            drop_line(v.grid, v.active, v.rot, v.line + i, v.col) == dl,
                            moves * cg <= timestamp - gt,
                            moves == (timestamp - gt) / (cg as int),
                            cg == v.current_gravity,
                            v.gravity_timestamp == Some(gt),
                            timestamp >= gt,
                            cg > 0,
                        decreases moves - i,
                    {
                        proof {
                            lemma_drop_step(v.grid, v.active, v.rot, v.line + i, v.col);
                        }
                        if !self.try_move(Direction::Down) {
                            proof {
                                assert(i * cg <= moves * cg) by (nonlinear_arith)
                                    requires
                                        i <= moves,
                                ;
                            }
                            self.gravity_timestamp = None;
                            self.lock_timestamp = Some(gt + i * cg);
                            assert(v.line + i == dl);
                            assert(gravity_moves(v, timestamp) == moves as int);
                            assert(self@ == (GameView {
                                line: dl,
                                gravity_timestamp: None,
                                lock_timestamp: Some((gt + (dl - v.line) * cg) as u64),
                                ..o
                            }));
                            return Transition::Idle;
                        }
                        i = i + 1;
                    }
                    self.gravity_timestamp = Some(gt + moves * cg);
                }
            }
        }
        if let Some(lt) = self.lock_timestamp {
            if timestamp >= lt && (timestamp - lt > self.lock_delay as u64 || self.lock_reset_count
                > self.max_lock_reset_count) {
                let ghost m = self@;
                let r = self.lock_active();
                proof {
                    lemma_lock_leaves_no_full_line(m, self@, r);
                }
                return r;
            }
        }
        Transition::Idle
    }

    pub fn state(&self) -> (r: State)
        ensures
            r == self@.state,
    {
        self.state
    }

    /// The held piece, if any.
    pub fn get_hold(&self) -> (r: Option<Piece>)
        ensures
            self@.hold == Piece::Empty ==> r.is_none(),
            self@.hold != Piece::Empty ==> r == Some(self@.hold),
    {
        match self.swap_piece {
            Piece::Empty => None,
            _ => Some(self.swap_piece),
        }
    }

    /// The next five pieces of the queue, front first.
    pub fn get_queue(&self) -> (r: [Piece; 5])
        requires
            self.wf(),
        ensures
            r@ == self@.queue.take(5),
    {
        let p = self.queue.preview(5);
        let r = [p[0], p[1], p[2], p[3], p[4]];
        assert(r@ =~= self@.queue.take(5));
        r
    }

    /// Up to `n` upcoming pieces, front first; fewer when fewer are waiting.
    pub fn preview(&self, n: usize) -> (r: Vec<Piece>)
        ensures
            r@ == self@.queue.take(if n < self@.queue.len() { n as int } else { self@.queue.len() as int }),
    {
        self.queue.preview(n)
    }

    pub fn active_piece(&self) -> (r: Piece)
        ensures
            r == self@.active,
    {
        self.piece_active
    }

    pub fn active_rotation(&self) -> (r: Rotation)
        ensures
            r == self@.rot,
    {
        self.rot_active
    }

    /// The anchor of the active piece, as (line, column).
    pub fn active_anchor(&self) -> (r: (usize, usize))
        ensures
            r.0 == self@.line,
            r.1 == self@.col,
    {
        (self.line_active, self.col_active)
    }

    /// The locked cells.
    pub fn board(&self) -> (r: &Board)
        requires
            self.wf(),
        ensures
            r.wf(),
            r@ == self@.grid,
    {
        &self.board
    }

    /// Whether the active piece covers the cell.
    fn covers_cell(&self, line: usize, col: usize) -> (r: bool)
        requires
            self.wf(),
            line < BOARD_HEIGHT,
            col < BOARD_WIDTH,
        ensures
            r == covers(self@, line as int, col as int),
    {
        let d = offsets(self.piece_active, self.rot_active);
        let ghost cells = piece_cells(self@.active, self@.rot, self@.line, self@.col);
        let mut k: usize = 0;
        while k < 4
            invariant
                self.wf(),
                line < BOARD_HEIGHT,
                col < BOARD_WIDTH,
                k <= 4,
                cells == piece_cells(self@.active, self@.rot, self@.line, self@.col),
                forall|j: int|
                    0 <= j < 4 ==> (#[trigger] d@[j]).0 as int == shape_offsets(self@.active, self@.rot)[j].0
                        && d@[j].1 as int == shape_offsets(self@.active, self@.rot)[j].1,
                forall|j: int| 0 <= j < k ==> #[trigger] cells[j] != (line as int, col as int),
            decreases 4 - k,
        {
            proof {
                lemma_offsets_small(self@.active, self@.rot);
            }
            let (dl, dc) = d[k];
            assert(-2 <= dl <= 2 && -2 <= dc <= 2) by {
                assert(d@[k as int].0 as int == shape_offsets(self@.active, self@.rot)[k as int].0);
                assert(d@[k as int].1 as int == shape_offsets(self@.active, self@.rot)[k as int].1);
            }
            if self.line_active as i32 + dl == line as i32 && self.col_active as i32 + dc == col as i32 {
                assert(cells[k as int] == (line as int, col as int));
                return true;
            }
            k = k + 1;
        }
        false
    }

    /// What the cell shows: the active piece where it is in play over the
    /// cell, else the locked cell.
    pub fn cell(&self, line: usize, col: usize) -> (r: Piece)
        requires
            self.wf(),
            line < BOARD_HEIGHT,
            col < BOARD_WIDTH,
        ensures
            r == shown(self@, line as int, col as int),
    {
        if self.state == State::Playing && self.covers_cell(line, col) {
            self.piece_active
        } else {
            self.board.get(line as i32, col as i32)
        }
    }

    /// Puts `shape` in play at the spawn position with fresh timers, for
    /// setting up a position; false, and nothing changes, for `Empty`.
    /// Returns whether the piece fits there and is in play.
    pub fn spawn_piece(&mut self, shape: Piece) -> (r: bool)
        requires
            old(self).wf(),
        ensures
            final(self).wf(),
            shape == Piece::Empty ==> !r && final(self)@ == old(self)@,
            shape != Piece::Empty ==> same_queue(old(self)@, final(self)@) && spawned(
                old(self)@,
                final(self)@,
                shape,
            ) && r == (final(self)@.state == State::Playing),
    {
        if shape == Piece::Empty {
            return false;
        }
        self.spawn_shape(shape);
        self.state == State::Playing
    }

    /// Sets a locked cell, for setting up a position. Refused (false, and
    /// nothing changes) outside the grid and under the piece in play.
    pub fn set_cell(&mut self, line: usize, col: usize, fill: Piece) -> (r: bool)
        requires
            old(self).wf(),
        ensures
            final(self).wf(),
            r == (in_bounds(line as int, col as int) && !(old(self)@.state == State::Playing
                && covers(old(self)@, line as int, col as int))),
            r ==> final(self)@ == (GameView {
                grid: put(old(self)@.grid, line as int, col as int, fill),
                ..old(self)@
            }),
            !r ==> final(self)@ == old(self)@,
    {
        if line >= BOARD_HEIGHT || col >= BOARD_WIDTH {
            return false;
        }
        if self.state == State::Playing && self.covers_cell(line, col) {
            return false;
        }
        let ghost v = self@;
        self.board.set(line, col, fill);
        proof {
            self.board.lemma_shaped();
            if v.state == State::Playing {
                let cells = piece_cells(v.active, v.rot, v.line, v.col);
                assert forall|k: int| 0 <= k < 4 implies cell_free(
                    self@.grid,
                    #[trigger] cells[k].0,
                    cells[k].1,
                ) by {
                    assert(cells[k] != (line as int, col as int));
                    assert(cell_free(v.grid, cells[k].0, cells[k].1));
                }
            }
        }
        true
    }

    /// The line the active piece would land on if dropped now, for drawing
    /// its projection; its anchor line when no piece is in play.
    pub fn projection(&self) -> (r: usize)
        requires
            self.wf(),
        ensures
            self@.state == State::Playing ==> r == drop_line(
                self@.grid,
                self@.active,
                self@.rot,
                self@.line,
                self@.col,
            ),
            self@.state != State::Playing ==> r == self@.line,
    {
        if self.state != State::Playing {
            return self.line_active;
        }
        let ghost v = self@;
        let mut line: usize = self.line_active;
        proof {
            self.board.lemma_shaped();
        }
        loop
            invariant
                self.wf(),
                self@ == v,
                v.state == State::Playing,
                line < BOARD_HEIGHT,
                fits(v.grid, v.active, v.rot, line as int, v.col),
                drop_line(v.grid, v.active, v.rot, line as int, v.col) == drop_line(
                    v.grid,
                    v.active,
                    v.rot,
                    v.line,
                    v.col,
                ),
            ensures
                line == drop_line(v.grid, v.active, v.rot, v.line, v.col),
            decreases BOARD_HEIGHT - line,
        {
            proof {
                lemma_drop_step(v.grid, v.active, v.rot, line as int, v.col);
            }
            if !self.board.fits_at(self.piece_active, self.rot_active, line as i32 + 1, self.col_active as i32) {
                break;
            }
            proof {
                lemma_fits_anchor(v.grid, v.active, v.rot, line + 1, v.col);
            }
            line = line + 1;
        }
        line
    }
}

} // verus!
