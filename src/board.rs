//! The grid of locked cells, with a filled-cell count kept for every row.

use crate::piece::{lemma_offsets_small, offsets, shape_offsets, Piece, Rotation};
use vstd::prelude::*;

verus! {

pub const BOARD_HEIGHT: usize = 24;

pub const BOARD_WIDTH: usize = 10;

/// The first line of the playable region; the lines above it are the buffer
/// that pieces spawn into. Only playable lines are checked for clears.
pub const PLAYABLE_TOP: usize = 5;

pub type Grid = Seq<Seq<Piece>>;

/// Number of cells of a line that hold a piece.
pub open spec fn count_filled(s: Seq<Piece>) -> nat
    decreases s.len(),
{
    if s.len() == 0 {
        0
    } else {
        count_filled(s.drop_last()) + if s.last() != Piece::Empty {
            1nat
        } else {
            0nat
        }
    }
}

/// A line with every cell filled.
pub open spec fn line_full(s: Seq<Piece>) -> bool {
    count_filled(s) == BOARD_WIDTH
}

/// A line with no cell filled.
pub open spec fn empty_line() -> Seq<Piece> {
    Seq::new(BOARD_WIDTH as nat, |c: int| Piece::Empty)
}

pub open spec fn empty_lines(n: nat) -> Grid {
    Seq::new(n, |l: int| empty_line())
}

/// A grid of the board's dimensions.
pub open spec fn grid_shaped(g: Grid) -> bool {
    &&& g.len() == BOARD_HEIGHT
    &&& forall|l: int| 0 <= l < BOARD_HEIGHT ==> (#[trigger] g[l]).len() == BOARD_WIDTH
}

pub open spec fn in_bounds(l: int, c: int) -> bool {
    0 <= l < BOARD_HEIGHT && 0 <= c < BOARD_WIDTH
}

/// A cell inside the grid that holds no piece; everything outside is wall.
pub open spec fn cell_free(g: Grid, l: int, c: int) -> bool {
    in_bounds(l, c) && g[l][c] == Piece::Empty
}

/// The cells that `shape` covers in rotation `rot` with its anchor at
/// (`line`, `col`).
pub open spec fn piece_cells(shape: Piece, rot: Rotation, line: int, col: int) -> Seq<(int, int)> {
    shape_offsets(shape, rot).map_values(|d: (int, int)| (line + d.0, col + d.1))
}

/// Every cell the piece would cover is free.
pub open spec fn fits(g: Grid, shape: Piece, rot: Rotation, line: int, col: int) -> bool {
    forall|k: int|
        0 <= k < 4 ==> cell_free(
            g,
            #[trigger] piece_cells(shape, rot, line, col)[k].0,
            piece_cells(shape, rot, line, col)[k].1,
        )
}

/// A piece that fits has its anchor inside the grid.
pub proof fn lemma_fits_anchor(g: Grid, shape: Piece, rot: Rotation, line: int, col: int)
    requires
        fits(g, shape, rot, line, col),
    ensures
        in_bounds(line, col),
{
    let cells = piece_cells(shape, rot, line, col);
    assert(shape_offsets(shape, rot)[0] == (0int, 0int));
    assert(cell_free(g, cells[0].0, cells[0].1));
}

/// The anchor line a piece falls to from `line`: it moves down while the
/// cells one line lower are free.
pub open spec fn drop_line(g: Grid, shape: Piece, rot: Rotation, line: int, col: int) -> int
    decreases BOARD_HEIGHT - line,
{
    if line + 1 < BOARD_HEIGHT && fits(g, shape, rot, line + 1, col) {
        drop_line(g, shape, rot, line + 1, col)
    } else {
        line
    }
}

/// One step of a fall: the piece can move down exactly when it has not
/// reached its drop line, and the drop line stays the same.
pub proof fn lemma_drop_step(g: Grid, shape: Piece, rot: Rotation, line: int, col: int)
    requires
        fits(g, shape, rot, line, col),
    ensures
        drop_line(g, shape, rot, line, col) >= line,
        fits(g, shape, rot, line + 1, col) <==> drop_line(g, shape, rot, line, col) > line,
        fits(g, shape, rot, line + 1, col) ==> drop_line(g, shape, rot, line + 1, col) == drop_line(
            g,
            shape,
            rot,
            line,
            col,
        ),
    decreases BOARD_HEIGHT - line,
{
    if fits(g, shape, rot, line + 1, col) {
        lemma_fits_anchor(g, shape, rot, line + 1, col);
        lemma_drop_step(g, shape, rot, line + 1, col);
    }
}

/// The grid with one cell set.
pub open spec fn put(g: Grid, l: int, c: int, p: Piece) -> Grid {
    g.update(l, g[l].update(c, p))
}

/// The grid with the piece's four cells written into it.
pub open spec fn place(g: Grid, shape: Piece, rot: Rotation, line: int, col: int) -> Grid {
    let cells = piece_cells(shape, rot, line, col);
    put(
        put(put(put(g, cells[0].0, cells[0].1, shape), cells[1].0, cells[1].1, shape), cells[2].0, cells[2].1, shape),
        cells[3].0,
        cells[3].1,
        shape,
    )
}

/// Line clearing, stated over the lines `r` as they were before: of `r[0..m]` the
/// lines are examined from the bottom up while their place in the compacted
/// grid is still inside the playable region; `c` lines were removed below.
/// A full line is removed, the others keep their order, and empty lines fill
/// the top.
pub open spec fn clear_from(r: Grid, m: int, c: nat) -> Grid
    decreases m,
{
    if m <= 0 {
        empty_lines(c)
    } else if c + m <= PLAYABLE_TOP {
        empty_lines(c) + r.subrange(0, m)
    } else if line_full(r[m - 1]) {
        clear_from(r, m - 1, c + 1)
    } else {
        clear_from(r, m - 1, c).push(r[m - 1])
    }
}

/// The number of lines that `clear_from` removes.
pub open spec fn cleared_from(r: Grid, m: int, c: nat) -> nat
    decreases m,
{
    if m <= 0 || c + m <= PLAYABLE_TOP {
        c
    } else if line_full(r[m - 1]) {
        cleared_from(r, m - 1, c + 1)
    } else {
        cleared_from(r, m - 1, c)
    }
}

/// The grid after full playable lines have been removed.
pub open spec fn clear_lines(g: Grid) -> Grid {
    clear_from(g, BOARD_HEIGHT as int, 0)
}

/// How many lines `clear_lines` removes.
pub open spec fn lines_cleared(g: Grid) -> nat {
    cleared_from(g, BOARD_HEIGHT as int, 0)
}

pub open spec fn grid_empty(g: Grid) -> bool {
    forall|l: int, c: int| in_bounds(l, c) ==> g[l][c] == Piece::Empty
}

pub proof fn lemma_count_filled_bound(s: Seq<Piece>)
    ensures
        count_filled(s) <= s.len(),
    decreases s.len(),
{
    if s.len() > 0 {
        lemma_count_filled_bound(s.drop_last());
    }
}

pub proof fn lemma_count_filled_zero(s: Seq<Piece>)
    ensures
        count_filled(s) == 0 <==> forall|c: int| 0 <= c < s.len() ==> s[c] == Piece::Empty,
    decreases s.len(),
{
    if s.len() > 0 {
        lemma_count_filled_zero(s.drop_last());
        assert(forall|c: int| 0 <= c < s.len() - 1 ==> s.drop_last()[c] == s[c]);
    }
}

pub proof fn lemma_count_filled_update(s: Seq<Piece>, i: int, p: Piece)
    requires
        0 <= i < s.len(),
    ensures
        count_filled(s.update(i, p)) + (if s[i] != Piece::Empty {
            1int
        } else {
            0int
        }) == count_filled(s) + (if p != Piece::Empty {
            1int
        } else {
            0int
        }),
    decreases s.len(),
{
    if i < s.len() - 1 {
        lemma_count_filled_update(s.drop_last(), i, p);
        assert(s.update(i, p).drop_last() =~= s.drop_last().update(i, p));
    } else {
        assert(s.update(i, p).drop_last() =~= s.drop_last());
    }
}

pub proof fn lemma_empty_line_count()
    ensures
        count_filled(empty_line()) == 0,
{
    lemma_count_filled_zero(empty_line());
}

/// The locked cells of the board, line by line from the top, with the
/// number of filled cells of each line.
pub struct Board {
    rows: Vec<[Piece; BOARD_WIDTH]>,
    row_counts: Vec<u8>,
}

impl View for Board {
    type V = Grid;

    closed spec fn view(&self) -> Grid {
        self.rows@.map_values(|r: [Piece; BOARD_WIDTH]| r@)
    }
}

impl Board {
    /// The grid has the board's dimensions and each line count is the
    /// number of filled cells of its line.
    pub closed spec fn wf(&self) -> bool {
        &&& self.rows@.len() == BOARD_HEIGHT
        &&& self.row_counts@.len() == BOARD_HEIGHT
        &&& forall|l: int|
            0 <= l < BOARD_HEIGHT ==> #[trigger] self.row_counts@[l] == count_filled(self@[l])
    }

    pub proof fn lemma_shaped(&self)
        requires
            self.wf(),
        ensures
            grid_shaped(self@),
    {
        assert forall|l: int| 0 <= l < BOARD_HEIGHT implies (#[trigger] self@[l]).len()
            == BOARD_WIDTH by {
            assert(self@[l] == self.rows@[l]@);
        }
    }

    /// An empty board.
    pub fn new() -> (b: Board)
        ensures
            b.wf(),
            b@ == empty_lines(BOARD_HEIGHT as nat),
    {
        let mut rows: Vec<[Piece; BOARD_WIDTH]> = Vec::new();
        let mut row_counts: Vec<u8> = Vec::new();
        let mut i: usize = 0;
        while i < BOARD_HEIGHT
            invariant
                i <= BOARD_HEIGHT,
                rows@.len() == i,
                row_counts@.len() == i,
                forall|l: int| 0 <= l < i ==> #[trigger] rows@[l]@ == empty_line(),
                forall|l: int| 0 <= l < i ==> #[trigger] row_counts@[l] == 0,
            decreases BOARD_HEIGHT - i,
        {
            let row: [Piece; BOARD_WIDTH] = [Piece::Empty; BOARD_WIDTH];
            assert(row@ =~= empty_line());
            rows.push(row);
            row_counts.push(0);
            i = i + 1;
        }
        let b = Board { rows, row_counts };
        proof {
            lemma_empty_line_count();
            assert(b@ =~= empty_lines(BOARD_HEIGHT as nat));
        }
        b
    }

    /// The piece in a cell; outside the grid every cell reads as filled
    /// (with `Piece::O`), so the grid's edges act as walls.
    pub fn get(&self, line: i32, col: i32) -> (r: Piece)
        requires
            self.wf(),
        ensures
            in_bounds(line as int, col as int) ==> r == self@[line as int][col as int],
            !in_bounds(line as int, col as int) ==> r == Piece::O,
    {
        if line < 0 || line >= BOARD_HEIGHT as i32 || col < 0 || col >= BOARD_WIDTH as i32 {
            Piece::O
        } else {
            self.rows[line as usize][col as usize]
        }
    }

    /// Whether a cell is inside the grid and holds no piece.
    pub fn is_free(&self, line: i32, col: i32) -> (r: bool)
        requires
            self.wf(),
        ensures
            r == cell_free(self@, line as int, col as int),
    {
        if line < 0 || line >= BOARD_HEIGHT as i32 || col < 0 || col >= BOARD_WIDTH as i32 {
            false
        } else {
            self.rows[line as usize][col as usize] == Piece::Empty
        }
    }

    /// The number of filled cells in a line.
    pub fn row_count(&self, line: usize) -> (r: u8)
        requires
            self.wf(),
            line < BOARD_HEIGHT,
        ensures
            r == count_filled(self@[line as int]),
            r <= BOARD_WIDTH,
    {
        proof {
            self.lemma_shaped();
            lemma_count_filled_bound(self@[line as int]);
        }
        self.row_counts[line]
    }

    /// Sets one cell, keeping the line's count.
    pub fn set(&mut self, line: usize, col: usize, fill: Piece)
        requires
            old(self).wf(),
            line < BOARD_HEIGHT,
            col < BOARD_WIDTH,
        ensures
            final(self).wf(),
            final(self)@ == put(old(self)@, line as int, col as int, fill),
    {
        let ghost g = self@;
        let mut row = self.rows[line];
        let before = row[col];
        let ghost s = row@;
        row[col] = fill;
        proof {
            self.lemma_shaped();
            lemma_count_filled_update(s, col as int, fill);
            lemma_count_filled_bound(s);
            lemma_count_filled_bound(row@);
            assert(row@ == s.update(col as int, fill));
        }
        let n = self.row_counts[line];
        let m: u8 = if before != Piece::Empty {
            if fill != Piece::Empty {
                n
            } else {
                n - 1
            }
        } else if fill != Piece::Empty {
            n + 1
        } else {
            n
        };
        self.rows.set(line, row);
        self.row_counts.set(line, m);
        proof {
            assert(self@ =~= put(g, line as int, col as int, fill));
        }
    }

    /// Whether `shape` in rotation `rot` with its anchor at (`line`, `col`)
    /// covers only free cells.
    pub fn fits_at(&self, shape: Piece, rot: Rotation, line: i32, col: i32) -> (r: bool)
        requires
            self.wf(),
        ensures
            r == fits(self@, shape, rot, line as int, col as int),
    {
        if line < 0 || line >= BOARD_HEIGHT as i32 || col < 0 || col >= BOARD_WIDTH as i32 {
            proof {
                if fits(self@, shape, rot, line as int, col as int) {
                    lemma_fits_anchor(self@, shape, rot, line as int, col as int);
                }
            }
            return false;
        }
        let d = offsets(shape, rot);
        let ghost cells = piece_cells(shape, rot, line as int, col as int);
        proof {
            lemma_offsets_small(shape, rot);
        }
        let mut k: usize = 0;
        while k < 4
            invariant
                k <= 4,
                self.wf(),
                0 <= line < BOARD_HEIGHT,
                0 <= col < BOARD_WIDTH,
                cells == piece_cells(shape, rot, line as int, col as int),
                forall|j: int| 0 <= j < 4 ==> (#[trigger] d@[j]).0 as int == shape_offsets(shape, rot)[j].0
                    && d@[j].1 as int == shape_offsets(shape, rot)[j].1,
                forall|j: int| 0 <= j < k ==> cell_free(self@, #[trigger] cells[j].0, cells[j].1),
            decreases 4 - k,
        {
            let (dl, dc) = d[k];
            assert(-2 <= dl <= 2 && -2 <= dc <= 2) by {
                assert(d@[k as int].0 as int == shape_offsets(shape, rot)[k as int].0);
                assert(d@[k as int].1 as int == shape_offsets(shape, rot)[k as int].1);
                lemma_offsets_small(shape, rot);
            }
            if !self.is_free(line + dl, col + dc) {
                assert(cells[k as int] == (line + dl, col + dc));
                assert(!cell_free(self@, cells[k as int].0, cells[k as int].1));
                return false;
            }
            k = k + 1;
        }
        true
    }

    /// Writes the piece's four cells into the grid.
    pub fn place(&mut self, shape: Piece, rot: Rotation, line: usize, col: usize)
        requires
            old(self).wf(),
            line < BOARD_HEIGHT,
            col < BOARD_WIDTH,
            fits(old(self)@, shape, rot, line as int, col as int),
        ensures
            final(self).wf(),
            final(self)@ == place(old(self)@, shape, rot, line as int, col as int),
    {
        let d = offsets(shape, rot);
        let ghost cells = piece_cells(shape, rot, line as int, col as int);
        let ghost g0 = self@;
        assert(cell_free(g0, cells[0].0, cells[0].1));
        assert(cell_free(g0, cells[1].0, cells[1].1));
        assert(cell_free(g0, cells[2].0, cells[2].1));
        assert(cell_free(g0, cells[3].0, cells[3].1));
        self.set((line as i32 + d[0].0) as usize, (col as i32 + d[0].1) as usize, shape);
        self.set((line as i32 + d[1].0) as usize, (col as i32 + d[1].1) as usize, shape);
        self.set((line as i32 + d[2].0) as usize, (col as i32 + d[2].1) as usize, shape);
        self.set((line as i32 + d[3].0) as usize, (col as i32 + d[3].1) as usize, shape);
    }

    /// Moves lines `0..=i` down by one and empties the top line, dropping
    /// line `i`.
    fn drop_line(&mut self, i: usize)
        requires
            old(self).wf(),
            i < BOARD_HEIGHT,
        ensures
            final(self).wf(),
            final(self)@ == empty_lines(1) + old(self)@.subrange(0, i as int) + old(self)@.subrange(
                i + 1,
                BOARD_HEIGHT as int,
            ),
    {
        let ghost g = self@;
        let ghost c0 = self.row_counts@;
        assert forall|l: int| 0 <= l < BOARD_HEIGHT implies #[trigger] self.rows@[l]@ == g[l] by {
            assert(self@[l] == self.rows@[l]@);
        }
        let mut j: usize = i;
        while j > 0
            invariant
                j <= i < BOARD_HEIGHT,
                g.len() == BOARD_HEIGHT,
                self.rows@.len() == BOARD_HEIGHT,
                self.row_counts@.len() == BOARD_HEIGHT,
                forall|l: int| 0 <= l < BOARD_HEIGHT ==> #[trigger] c0[l] == count_filled(g[l]),
                c0.len() == BOARD_HEIGHT,
                forall|l: int| 0 <= l <= j ==> #[trigger] self.rows@[l]@ == g[l],
                forall|l: int| j < l <= i ==> #[trigger] self.rows@[l]@ == g[l - 1],
                forall|l: int| i < l < BOARD_HEIGHT ==> #[trigger] self.rows@[l]@ == g[l],
                forall|l: int| 0 <= l <= j ==> #[trigger] self.row_counts@[l] == c0[l],
                forall|l: int| j < l <= i ==> #[trigger] self.row_counts@[l] == c0[l - 1],
                forall|l: int| i < l < BOARD_HEIGHT ==> #[trigger] self.row_counts@[l] == c0[l],
            decreases j,
        {
            let above = self.rows[j - 1];
            self.rows.set(j, above);
            let n = self.row_counts[j - 1];
            self.row_counts.set(j, n);
            j = j - 1;
        }
        let row: [Piece; BOARD_WIDTH] = [Piece::Empty; BOARD_WIDTH];
        proof {
            assert(row@ =~= empty_line());
            lemma_empty_line_count();
        }
        self.rows.set(0, row);
        self.row_counts.set(0, 0);
        proof {
            assert forall|l: int| 0 <= l < BOARD_HEIGHT implies #[trigger] self.row_counts@[l]
                == count_filled(self@[l]) by {
                assert(self@[l] == self.rows@[l]@);
            }
            assert forall|l: int| 0 <= l < BOARD_HEIGHT implies #[trigger] self@[l] == (empty_lines(1) + g.subrange(0, i as int) + g.subrange(
                i + 1,
                BOARD_HEIGHT as int,
            ))[l] by {
                assert(self@[l] == self.rows@[l]@);
            }
            assert(self@ =~= empty_lines(1) + g.subrange(0, i as int) + g.subrange(
                i + 1,
                BOARD_HEIGHT as int,
            ));
        }
    }

    /// Removes every full line of the playable region, scanning from the
    /// bottom up; the lines above a removed one move down and an empty line
    /// enters at the top. Returns the number of lines removed.
    pub fn clear_lines(&mut self) -> (n: u32)
        requires
            old(self).wf(),
        ensures
            final(self).wf(),
            final(self)@ == clear_lines(old(self)@),
            n == lines_cleared(old(self)@),
    {
        let ghost r = self@;
        let ghost mut m: int = BOARD_HEIGHT as int;
        let ghost mut kept: Grid = seq![];
        let ghost mut e: nat = 0;
        let mut c: u32 = 0;
        let mut i: usize = BOARD_HEIGHT - 1;
        proof {
            self.lemma_shaped();
            assert(empty_lines(0) + r.subrange(0, m) + kept =~= r);
        }
        while i >= PLAYABLE_TOP
            invariant
                self.wf(),
                PLAYABLE_TOP - 1 <= i < BOARD_HEIGHT,
                0 <= m <= BOARD_HEIGHT,
                r.len() == BOARD_HEIGHT,
                c <= BOARD_HEIGHT,
                e <= BOARD_HEIGHT,
                m > 0 ==> c == e,
                i + 1 == e + m,
                self@ == empty_lines(e) + r.subrange(0, m) + kept,
                clear_lines(r) == clear_from(r, m, e) + kept,
                lines_cleared(r) == cleared_from(r, m, c as nat),
            decreases i + m,
        {
            proof {
                self.lemma_shaped();
            }
            if self.row_counts[i] == BOARD_WIDTH as u8 {
                proof {
                    assert(m > 0) by {
                        if m == 0 {
                            assert(self@[i as int] == empty_line());
                            lemma_empty_line_count();
                        }
                    }
                    assert(self@[i as int] == r[m - 1]);
                }
                self.drop_line(i);
                proof {
                    assert(self@ =~= empty_lines(e + 1) + r.subrange(0, m - 1) + kept);
                    m = m - 1;
                    e = e + 1;
                }
                c = c + 1;
            } else {
                proof {
                    if m > 0 {
                        assert(self@[i as int] == r[m - 1]);
                        assert(r.subrange(0, m) =~= r.subrange(0, m - 1).push(r[m - 1]));
                        assert(clear_from(r, m - 1, e).push(r[m - 1]) + kept =~= clear_from(
                            r,
                            m - 1,
                            e,
                        ) + (seq![r[m - 1]] + kept));
                        kept = seq![r[m - 1]] + kept;
                        assert(self@ =~= empty_lines(e) + r.subrange(0, m - 1) + kept);
                        m = m - 1;
                    } else {
                        assert(empty_lines(e) =~= empty_lines((e - 1) as nat) + seq![empty_line()]);
                        assert(clear_from(r, m, e) + kept =~= clear_from(r, m, (e - 1) as nat) + (
                        seq![empty_line()] + kept));
                        kept = seq![empty_line()] + kept;
                        assert(self@ =~= empty_lines((e - 1) as nat) + r.subrange(0, m) + kept);
                        e = (e - 1) as nat;
                    }
                }
                i = i - 1;
            }
        }
        proof {
            assert(clear_from(r, m, e) == empty_lines(e) + r.subrange(0, m));
        }
        c
    }

    /// Whether no cell of the board is filled.
    pub fn is_empty(&self) -> (r: bool)
        requires
            self.wf(),
        ensures
            r == grid_empty(self@),
    {
        let mut l: usize = 0;
        while l < BOARD_HEIGHT
            invariant
                self.wf(),
                l <= BOARD_HEIGHT,
                forall|i: int, c: int| 0 <= i < l && 0 <= c < BOARD_WIDTH ==> #[trigger] self@[i][c]
                    == Piece::Empty,
            decreases BOARD_HEIGHT - l,
        {
            proof {
                self.lemma_shaped();
                lemma_count_filled_zero(self@[l as int]);
            }
            if self.row_counts[l] != 0 {
                proof {
                    let c = choose|c: int| 0 <= c < BOARD_WIDTH && self@[l as int][c] != Piece::Empty;
                    assert(in_bounds(l as int, c));
                }
                return false;
            }
            l = l + 1;
        }
        true
    }
}

} // verus!
