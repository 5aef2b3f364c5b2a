//! Piece shapes, rotation states and the geometry tables that go with them.

use vstd::prelude::*;

verus! {

/// One of the seven tetromino shapes, or `Empty` for an empty cell / no piece.
#[derive(Clone, Copy, PartialEq, Eq, Structural, Hash, Debug, PartialOrd, Ord)]
pub enum Piece {
    T,
    I,
    J,
    L,
    S,
    Z,
    O,
    Empty,
}

/// The four rotation states. `Left` is a quarter turn counter-clockwise from
/// `Spawn`, `Right` a quarter turn clockwise and `Flip` a half turn.
#[derive(Clone, Copy, PartialEq, Eq, Structural, Debug)]
pub enum Rotation {
    Spawn,
    Left,
    Right,
    Flip,
}

/// A direction in which the active piece can be translated.
#[derive(Clone, Copy, PartialEq, Eq, Structural, Debug)]
pub enum Direction {
    Down,
    Left,
    Right,
}

/// Counter-clockwise quarter turns that a rotation state stands for.
pub open spec fn turns(r: Rotation) -> int {
    match r {
        Rotation::Spawn => 0,
        Rotation::Left => 1,
        Rotation::Flip => 2,
        Rotation::Right => 3,
    }
}

/// The rotation state reached after `n` counter-clockwise quarter turns.
pub open spec fn rotation_of(n: int) -> Rotation {
    let m = n % 4;
    if m == 0 {
        Rotation::Spawn
    } else if m == 1 {
        Rotation::Left
    } else if m == 2 {
        Rotation::Flip
    } else {
        Rotation::Right
    }
}

/// Cyclic composition of rotation states.
pub open spec fn rot_add(a: Rotation, b: Rotation) -> Rotation {
    rotation_of(turns(a) + turns(b))
}

/// The rotation that undoes `r`.
pub open spec fn rot_inverse(r: Rotation) -> Rotation {
    rotation_of(4 - turns(r))
}

impl Rotation {
    /// Composes two rotations: the quarter turns add up modulo four.
    pub fn add(self, other: Rotation) -> (r: Rotation)
        ensures
            r == rot_add(self, other),
    {
        let a: u8 = match self {
            Rotation::Spawn => 0,
            Rotation::Left => 1,
            Rotation::Flip => 2,
            Rotation::Right => 3,
        };
        let b: u8 = match other {
            Rotation::Spawn => 0,
            Rotation::Left => 1,
            Rotation::Flip => 2,
            Rotation::Right => 3,
        };
        let n: u8 = (a + b) % 4;
        if n == 0 {
            Rotation::Spawn
        } else if n == 1 {
            Rotation::Left
        } else if n == 2 {
            Rotation::Flip
        } else {
            Rotation::Right
        }
    }
}

/// The cells of a shape in a rotation state, as (line, column) offsets from
/// its anchor; the anchor itself comes first. Lines grow downward.
pub open spec fn shape_offsets(shape: Piece, rot: Rotation) -> Seq<(int, int)> {
    match shape {
        Piece::T => match rot {
            Rotation::Spawn => seq![(0, 0), (0, -1), (0, 1), (-1, 0)],
            Rotation::Left => seq![(0, 0), (-1, 0), (1, 0), (0, -1)],
            Rotation::Right => seq![(0, 0), (-1, 0), (1, 0), (0, 1)],
            Rotation::Flip => seq![(0, 0), (0, -1), (0, 1), (1, 0)],
        },
        Piece::I => match rot {
            Rotation::Spawn => seq![(0, 0), (0, -1), (0, 1), (0, 2)],
            Rotation::Left => seq![(0, 0), (-2, 0), (-1, 0), (1, 0)],
            Rotation::Right => seq![(0, 0), (-1, 0), (1, 0), (2, 0)],
            Rotation::Flip => seq![(0, 0), (0, -2), (0, -1), (0, 1)],
        },
        Piece::J => match rot {
            Rotation::Spawn => seq![(0, 0), (0, -1), (0, 1), (-1, -1)],
            Rotation::Left => seq![(0, 0), (-1, 0), (1, 0), (1, -1)],
            Rotation::Right => seq![(0, 0), (-1, 0), (1, 0), (-1, 1)],
            Rotation::Flip => seq![(0, 0), (0, -1), (0, 1), (1, 1)],
        },
        Piece::L => match rot {
            Rotation::Spawn => seq![(0, 0), (0, -1), (0, 1), (-1, 1)],
            Rotation::Left => seq![(0, 0), (-1, 0), (1, 0), (-1, -1)],
            Rotation::Right => seq![(0, 0), (-1, 0), (1, 0), (1, 1)],
            Rotation::Flip => seq![(0, 0), (0, -1), (0, 1), (1, -1)],
        },
        Piece::S => match rot {
            Rotation::Spawn => seq![(0, 0), (-1, 0), (-1, 1), (0, -1)],
            Rotation::Left => seq![(0, 0), (-1, -1), (0, -1), (1, 0)],
            Rotation::Right => seq![(0, 0), (0, 1), (1, 1), (-1, 0)],
            Rotation::Flip => seq![(0, 0), (0, 1), (1, 0), (1, -1)],
        },
        Piece::Z => match rot {
            Rotation::Spawn => seq![(0, 0), (-1, 0), (-1, -1), (0, 1)],
            Rotation::Left => seq![(0, 0), (1, -1), (0, -1), (-1, 0)],
            Rotation::Right => seq![(0, 0), (0, 1), (-1, 1), (1, 0)],
            Rotation::Flip => seq![(0, 0), (0, -1), (1, 0), (1, 1)],
        },
        Piece::O => seq![(0, 0), (0, 1), (1, 0), (1, 1)],
        Piece::Empty => seq![(0, 0), (0, 0), (0, 0), (0, 0)],
    }
}

/// Every shape has four cells within two lines and two columns of its anchor.
pub proof fn lemma_offsets_small(shape: Piece, rot: Rotation)
    ensures
        shape_offsets(shape, rot).len() == 4,
        forall|k: int|
            0 <= k < 4 ==> -2 <= (#[trigger] shape_offsets(shape, rot)[k]).0 <= 2 && -2
                <= shape_offsets(shape, rot)[k].1 <= 2,
{
}

/// The offsets of `shape_offsets` as machine integers.
pub fn offsets(shape: Piece, rot: Rotation) -> (r: [(i32, i32); 4])
    ensures
        forall|k: int|
            0 <= k < 4 ==> (#[trigger] r@[k]).0 as int == shape_offsets(shape, rot)[k].0
                && r@[k].1 as int == shape_offsets(shape, rot)[k].1,
{
    let r: [(i32, i32); 4] = match shape {
        Piece::T => match rot {
            Rotation::Spawn => [(0, 0), (0, -1), (0, 1), (-1, 0)],
            Rotation::Left => [(0, 0), (-1, 0), (1, 0), (0, -1)],
            Rotation::Right => [(0, 0), (-1, 0), (1, 0), (0, 1)],
            Rotation::Flip => [(0, 0), (0, -1), (0, 1), (1, 0)],
        },
        Piece::I => match rot {
            Rotation::Spawn => [(0, 0), (0, -1), (0, 1), (0, 2)],
            Rotation::Left => [(0, 0), (-2, 0), (-1, 0), (1, 0)],
            Rotation::Right => [(0, 0), (-1, 0), (1, 0), (2, 0)],
            Rotation::Flip => [(0, 0), (0, -2), (0, -1), (0, 1)],
        },
        Piece::J => match rot {
            Rotation::Spawn => [(0, 0), (0, -1), (0, 1), (-1, -1)],
            Rotation::Left => [(0, 0), (-1, 0), (1, 0), (1, -1)],
            Rotation::Right => [(0, 0), (-1, 0), (1, 0), (-1, 1)],
            Rotation::Flip => [(0, 0), (0, -1), (0, 1), (1, 1)],
        },
        Piece::L => match rot {
            Rotation::Spawn => [(0, 0), (0, -1), (0, 1), (-1, 1)],
            Rotation::Left => [(0, 0), (-1, 0), (1, 0), (-1, -1)],
            Rotation::Right => [(0, 0), (-1, 0), (1, 0), (1, 1)],
            Rotation::Flip => [(0, 0), (0, -1), (0, 1), (1, -1)],
        },
        Piece::S => match rot {
            Rotation::Spawn => [(0, 0), (-1, 0), (-1, 1), (0, -1)],
            Rotation::Left => [(0, 0), (-1, -1), (0, -1), (1, 0)],
            Rotation::Right => [(0, 0), (0, 1), (1, 1), (-1, 0)],
            Rotation::Flip => [(0, 0), (0, 1), (1, 0), (1, -1)],
        },
        Piece::Z => match rot {
            Rotation::Spawn => [(0, 0), (-1, 0), (-1, -1), (0, 1)],
            Rotation::Left => [(0, 0), (1, -1), (0, -1), (-1, 0)],
            Rotation::Right => [(0, 0), (0, 1), (-1, 1), (1, 0)],
            Rotation::Flip => [(0, 0), (0, -1), (1, 0), (1, 1)],
        },
        Piece::O => [(0, 0), (0, 1), (1, 0), (1, 1)],
        Piece::Empty => [(0, 0), (0, 0), (0, 0), (0, 0)],
    };
    r
}

/// The wall-kick offsets tried, in order, after the untranslated position
/// when `shape` turns a quarter from `from` to `to`. Empty where the table
/// has no entry: then the piece does not turn at all.
pub open spec fn kick_offsets(shape: Piece, from: Rotation, to: Rotation) -> Seq<(int, int)> {
    match shape {
        Piece::T | Piece::J | Piece::L | Piece::S | Piece::Z => match (from, to) {
            (Rotation::Right, Rotation::Spawn) | (Rotation::Right, Rotation::Flip) => seq![
                (0, 1),
                (1, 1),
                (-2, 0),
                (-2, 1),
            ],
            (Rotation::Spawn, Rotation::Right) | (Rotation::Flip, Rotation::Right) => seq![
                (0, -1),
                (-1, -1),
                (2, 0),
                (2, -1),
            ],
            (Rotation::Flip, Rotation::Left) | (Rotation::Spawn, Rotation::Left) => seq![
                (0, 1),
                (-1, 1),
                (2, 0),
                (2, 1),
            ],
            (Rotation::Left, Rotation::Flip) | (Rotation::Left, Rotation::Spawn) => seq![
                (0, -1),
                (1, -1),
                (-2, 0),
                (-2, -1),
            ],
            _ => seq![],
        },
        Piece::I => match (from, to) {
            (Rotation::Spawn, Rotation::Right) | (Rotation::Left, Rotation::Flip) => seq![
                (0, -2),
                (0, 1),
                (1, -2),
                (-2, 1),
            ],
            (Rotation::Right, Rotation::Spawn) | (Rotation::Flip, Rotation::Left) => seq![
                (0, 2),
                (0, -1),
                (-1, 2),
                (2, -1),
            ],
            (Rotation::Right, Rotation::Flip) | (Rotation::Spawn, Rotation::Left) => seq![
                (0, -1),
                (0, 2),
                (-2, -1),
                (1, 2),
            ],
            (Rotation::Flip, Rotation::Right) | (Rotation::Left, Rotation::Spawn) => seq![
                (0, 1),
                (0, -2),
                (2, 1),
                (-1, -2),
            ],
            _ => seq![],
        },
        _ => seq![],
    }
}

/// The positions tried for a quarter turn: the untranslated one first, then
/// the wall kicks. Empty where the shape does not turn between the two states.
pub open spec fn rotation_candidates(shape: Piece, from: Rotation, to: Rotation) -> Seq<(int, int)> {
    let kicks = kick_offsets(shape, from, to);
    if kicks.len() == 0 {
        seq![]
    } else {
        seq![(0, 0)] + kicks
    }
}

/// Candidates stay within two lines and two columns of the anchor.
pub proof fn lemma_candidates_small(shape: Piece, from: Rotation, to: Rotation)
    ensures
        forall|k: int|
            0 <= k < rotation_candidates(shape, from, to).len() ==> -2 <= (
            #[trigger] rotation_candidates(shape, from, to)[k]).0 <= 2 && -2 <= rotation_candidates(
                shape,
                from,
                to,
            )[k].1 <= 2,
{
}

/// The candidates of `rotation_candidates` as machine integers, or `None`
/// where the shape does not turn between the two states.
pub fn candidates(shape: Piece, from: Rotation, to: Rotation) -> (r: Option<[(i32, i32); 5]>)
    ensures
        rotation_candidates(shape, from, to).len() == 0 <==> r.is_none(),
        r.is_some() ==> rotation_candidates(shape, from, to).len() == 5 && forall|k: int|
            0 <= k < 5 ==> (#[trigger] r.unwrap()@[k]).0 as int == rotation_candidates(
                shape,
                from,
                to,
            )[k].0 && r.unwrap()@[k].1 as int == rotation_candidates(shape, from, to)[k].1,
{
    let jlstz = match shape {
        Piece::T | Piece::J | Piece::L | Piece::S | Piece::Z => true,
        _ => false,
    };
    if jlstz {
        match (from, to) {
            (Rotation::Right, Rotation::Spawn) | (Rotation::Right, Rotation::Flip) => Some(
                [(0, 0), (0, 1), (1, 1), (-2, 0), (-2, 1)],
            ),
            (Rotation::Spawn, Rotation::Right) | (Rotation::Flip, Rotation::Right) => Some(
                [(0, 0), (0, -1), (-1, -1), (2, 0), (2, -1)],
            ),
            (Rotation::Flip, Rotation::Left) | (Rotation::Spawn, Rotation::Left) => Some(
                [(0, 0), (0, 1), (-1, 1), (2, 0), (2, 1)],
            ),
            (Rotation::Left, Rotation::Flip) | (Rotation::Left, Rotation::Spawn) => Some(
                [(0, 0), (0, -1), (1, -1), (-2, 0), (-2, -1)],
            ),
            _ => None,
        }
    } else if shape == Piece::I {
        match (from, to) {
            (Rotation::Spawn, Rotation::Right) | (Rotation::Left, Rotation::Flip) => Some(
                [(0, 0), (0, -2), (0, 1), (1, -2), (-2, 1)],
            ),
            (Rotation::Right, Rotation::Spawn) | (Rotation::Flip, Rotation::Left) => Some(
                [(0, 0), (0, 2), (0, -1), (-1, 2), (2, -1)],
            ),
            (Rotation::Right, Rotation::Flip) | (Rotation::Spawn, Rotation::Left) => Some(
                [(0, 0), (0, -1), (0, 2), (-2, -1), (1, 2)],
            ),
            (Rotation::Flip, Rotation::Right) | (Rotation::Left, Rotation::Spawn) => Some(
                [(0, 0), (0, 1), (0, -2), (2, 1), (-1, -2)],
            ),
            _ => None,
        }
    } else {
        None
    }
}

} // verus!
