use crate::path::half_shift;
use crate::path::Pos;
use vstd::prelude::*;

verus! {

/// The angle that one turn piece sweeps, in millionths of a radian: the
/// angle whose tangent is three quarters.
pub const TURN_ANGLE_MICRO: i64 = 643_501;

/// The radius of every turn piece, in halves of a cell.
pub const TURN_RADIUS_HALVES: i64 = 5;

/// Whether `r` is the square root of `n`, rounded down.
pub open spec fn is_floor_sqrt(r: int, n: int) -> bool {
    0 <= r && r * r <= n < (r + 1) * (r + 1)
}

/// The length of a turn's arc, in whole pixels, rounded down: the angle
/// times the radius.
pub open spec fn turn_length(cell: int) -> int {
    cell * TURN_RADIUS_HALVES * TURN_ANGLE_MICRO / 2_000_000
}

/// The square root of `n`, rounded down.
pub fn floor_sqrt(n: u64) -> (r: u64)
    ensures
        is_floor_sqrt(r as int, n as int),
        r <= 0xFFFF_FFFF,
{
    let mut lo: u64 = 0;
    let mut hi: u64 = 0x1_0000_0000;
    assert(0x1_0000_0000 * 0x1_0000_0000 > n) by (nonlinear_arith)
        requires
            n <= u64::MAX,
    ;
    while hi - lo > 1
        invariant
            lo < hi <= 0x1_0000_0000,
            lo * lo <= n < hi * hi,
        decreases hi - lo,
    {
        let mid: u64 = lo + (hi - lo) / 2;
        assert(mid * mid <= 0x1_0000_0000 * 0x1_0000_0000) by (nonlinear_arith)
            requires
                0 <= mid <= 0x1_0000_0000,
        ;
        let sq: u128 = (mid as u128) * (mid as u128);
        if sq <= n as u128 {
            lo = mid;
        } else {
            hi = mid;
        }
    }
    lo
}

/// The cell size and the canvas that bound the network. The canvas is the
/// open rectangle between `min` and `max`: a point on its border is outside.
#[derive(Debug, Copy, Clone, PartialEq, Eq, Structural)]
pub struct Grid {
    /// The side of one cell, in pixels: the length of a straight piece.
    pub cell: i32,
    /// The corner of the canvas with the smallest coordinates.
    pub min: Pos,
    /// The corner of the canvas with the largest coordinates.
    pub max: Pos,
    /// The length of a diagonal piece: the cell's diagonal, rounded down.
    pub diag: i32,
    /// The length of a turn piece: its arc, rounded down.
    pub turn: i32,
}

impl Grid {
    /// The cell sizes that a grid can have: positive, and small enough for
    /// the three lengths to be `i32` values.
    pub open spec fn cell_fits(cell: int) -> bool {
        0 < cell && turn_length(cell) <= i32::MAX && exists|r: int|
            #[trigger] is_floor_sqrt(r, 2 * cell * cell) && r <= i32::MAX
    }

    /// The lengths are those that the cell size gives.
    pub open spec fn wf(&self) -> bool {
        &&& 0 < self.cell
        &&& self.turn == turn_length(self.cell as int)
        &&& is_floor_sqrt(self.diag as int, 2 * self.cell * self.cell)
        &&& 0 < self.diag
        &&& 0 < self.turn
    }

    /// Whether the point `(x, y)` lies inside the canvas.
    pub open spec fn inside(&self, x: int, y: int) -> bool {
        self.min.0 < x < self.max.0 && self.min.1 < y < self.max.1
    }

    /// A grid of the given cell size on the canvas between the two corners,
    /// where the cell size is one that a grid can have.
    pub fn new(cell: i32, min: Pos, max: Pos) -> (r: Option<Grid>)
        ensures
            r is Some <==> Grid::cell_fits(cell as int),
            r matches Some(g) ==> g.wf() && g.cell == cell && g.min == min && g.max == max,
    {
        if cell <= 0 {
            return None;
        }
        let c: i64 = cell as i64;
        let turn: i64 = c * TURN_RADIUS_HALVES * TURN_ANGLE_MICRO / 2_000_000;
        assert(2 * c * c <= 0x7FFF_FFFF_FFFF_FFFF) by (nonlinear_arith)
            requires
                0 < c <= 0x7FFF_FFFF,
        ;
        let sq: u64 = (2 * c * c) as u64;
        let diag: u64 = floor_sqrt(sq);
        proof {
            lemma_floor_sqrt_unique(diag as int, sq as int);
            assert(1 * 1 <= 2 * c * c) by (nonlinear_arith)
                requires
                    0 < c,
            ;
            if diag == 0 {
                assert((diag + 1) * (diag + 1) == 1);
            }
            assert(turn >= 1) by {
                assert(c * 5 * 643_501 >= 2_000_000);
            }
        }
        if turn > 0x7FFF_FFFF || diag > 0x7FFF_FFFF {
            return None;
        }
        Some(Grid { cell, min, max, diag: diag as i32, turn: turn as i32 })
    }

    /// Whether `p` lies inside the canvas.
    pub fn contains(&self, p: Pos) -> (r: bool)
        ensures
            r == self.inside(p.0 as int, p.1 as int),
    {
        self.min.0 < p.0 && p.0 < self.max.0 && self.min.1 < p.1 && p.1 < self.max.1
    }
}

/// A number has one square root rounded down.
pub proof fn lemma_floor_sqrt_unique(r: int, n: int)
    requires
        is_floor_sqrt(r, n),
    ensures
        forall|s: int| is_floor_sqrt(s, n) ==> s == r,
{
    assert forall|s: int| is_floor_sqrt(s, n) implies s == r by {
        if s < r {
            assert((s + 1) * (s + 1) <= r * r) by (nonlinear_arith)
                requires
                    0 <= s < r,
            ;
        }
        if r < s {
            assert((r + 1) * (r + 1) <= s * s) by (nonlinear_arith)
                requires
                    0 <= r < s,
            ;
        }
    }
}

/// What is left of `p` after the whole cells below it, counted from nought
/// toward `p`: it has the sign of `p`.
pub open spec fn cell_rest(p: int, cell: int) -> int {
    if p >= 0 {
        p % cell
    } else {
        -((-p) % cell)
    }
}

/// `v`, or the nearest `i32` where it is none.
pub open spec fn clamp_i32(v: int) -> int {
    if v < i32::MIN {
        i32::MIN as int
    } else if v > i32::MAX {
        i32::MAX as int
    } else {
        v
    }
}

/// The middle of the side of `pos`'s cell that `pos` is nearest to: the two
/// diagonals of the cell part it into four triangles, and each belongs to
/// one side. A coordinate that leaves the `i32` range stops at its end.
pub open spec fn spec_snap(grid: Grid, pos: Pos) -> Pos {
    let cell = grid.cell as int;
    let ox = cell_rest(pos.0 as int, cell);
    let oy = cell_rest(pos.1 as int, cell);
    let rx = pos.0 - ox;
    let ry = pos.1 - oy;
    let (kx, ky): (int, int) = if ox > oy {
        if ox + oy < cell {
            (1, 0)
        } else {
            (2, 1)
        }
    } else {
        if ox + oy < cell {
            (0, 1)
        } else {
            (1, 2)
        }
    };
    Pos(
        clamp_i32(half_shift(rx, kx, cell)) as i32,
        clamp_i32(half_shift(ry, ky, cell)) as i32,
    )
}

fn rest(p: i32, cell: i32) -> (r: i64)
    requires
        0 < cell,
    ensures
        r == cell_rest(p as int, cell as int),
        -cell < r < cell,
{
    if p >= 0 {
        (p % cell) as i64
    } else {
        -((-(p as i64)) % (cell as i64))
    }
}

fn clamp(v: i64) -> (r: i32)
    ensures
        r == clamp_i32(v as int),
{
    if v < -0x8000_0000 {
        -0x8000_0000
    } else if v > 0x7FFF_FFFF {
        0x7FFF_FFFF
    } else {
        v as i32
    }
}

/// The middle of the side of `pos`'s cell that `pos` is nearest to.
pub fn snap_to_grid(grid: &Grid, pos: Pos) -> (r: Pos)
    requires
        grid.wf(),
    ensures
        r == spec_snap(*grid, pos),
{
    let cell: i64 = grid.cell as i64;
    let ox: i64 = rest(pos.0, grid.cell);
    let oy: i64 = rest(pos.1, grid.cell);
    let rx: i64 = pos.0 as i64 - ox;
    let ry: i64 = pos.1 as i64 - oy;
    let (kx, ky): (i64, i64) = if ox > oy {
        if ox + oy < cell {
            (1, 0)
        } else {
            (2, 1)
        }
    } else {
        if ox + oy < cell {
            (0, 1)
        } else {
            (1, 2)
        }
    };
    assert(0 <= kx * cell <= 2 * cell && 0 <= ky * cell <= 2 * cell) by (nonlinear_arith)
        requires
            0 <= kx <= 2,
            0 <= ky <= 2,
            0 < cell,
    ;
    let sx: i64 = (2 * rx + kx * cell) / 2;
    let sy: i64 = (2 * ry + ky * cell) / 2;
    Pos(clamp(sx), clamp(sy))
}

} // verus!
