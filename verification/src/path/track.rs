use crate::grid::is_floor_sqrt;
use crate::grid::Grid;
use crate::path::half_shift;
use crate::path::lemma_kept;
use crate::path::lemma_neighbors;
use crate::path::neighbors;
use crate::path::spec_hops;
use crate::path::Connection;
use crate::path::Dir;
use crate::path::Pos;
use vstd::prelude::*;

verus! {

/// What every piece of track has: the connections at its two ends and its
/// length.
pub trait TrackPiece {
    spec fn spec_start(&self) -> Connection;

    spec fn spec_end(&self) -> Connection;

    spec fn spec_len(&self, grid: Grid) -> i32;

    /// The connection at which the piece begins.
    fn start(&self) -> (r: Connection)
        ensures
            r == self.spec_start(),
    ;

    /// The connection at which the piece ends.
    fn end(&self) -> (r: Connection)
        ensures
            r == self.spec_end(),
    ;

    /// The piece's length in pixels, which its kind alone decides.
    fn len(&self, grid: &Grid) -> (r: i32)
        requires
            grid.wf(),
        ensures
            r == self.spec_len(*grid),
            0 < r,
    ;
}

/// `n` divided by `d`, rounded toward zero.
pub open spec fn trunc_div(n: int, d: int) -> int {
    if n >= 0 {
        n / d
    } else {
        -((-n) / d)
    }
}

/// The point `num / den` of the way from `a` to `b` along one coordinate.
pub open spec fn lerp_coord(a: int, b: int, num: int, den: int) -> int {
    a + trunc_div((b - a) * num, den)
}

/// The point `num / den` of the way along the line from `a` to `b`, each
/// coordinate rounded toward `a`.
pub open spec fn spec_lerp(a: Pos, b: Pos, num: int, den: int) -> Pos {
    Pos(
        lerp_coord(a.0 as int, b.0 as int, num, den) as i32,
        lerp_coord(a.1 as int, b.1 as int, num, den) as i32,
    )
}

fn lerp_one(a: i32, b: i32, num: u64, den: u64) -> (r: i32)
    requires
        0 < den,
        num <= den,
    ensures
        r == lerp_coord(a as int, b as int, num as int, den as int),
        num == 0 ==> r == a,
        num == den ==> r == b,
{
    let diff: i128 = b as i128 - a as i128;
    let mag: i128 = if diff >= 0 {
        diff
    } else {
        -diff
    };
    proof {
        let m = mag as int;
        let n = num as int;
        let d = den as int;
        assert(0 <= m * n <= m * d <= 0x1_0000_0000 * 0x1_0000_0000_0000_0000) by (nonlinear_arith)
            requires
                0 <= m <= 0x1_0000_0000,
                0 <= n <= d,
                d <= 0x1_0000_0000_0000_0000,
        ;
        assert((m * n) / d <= m && 0 <= (m * n) / d) by (nonlinear_arith)
            requires
                0 <= m * n <= m * d,
                0 < d,
        ;
        assert((num == 0) ==> (m * n) / d == 0) by (nonlinear_arith)
            requires
                0 < d,
                n == num,
        ;
        assert((num == den) ==> (m * n) / d == m) by (nonlinear_arith)
            requires
                0 < d,
                n == num,
                d == den,
                0 <= m,
        ;
        if diff >= 0 {
            assert((b - a) * num == m * n);
        } else {
            assert(-((b - a) * num) == m * n) by (nonlinear_arith)
                requires
                    m == -(b - a),
                    n == num,
            ;
            assert(m * n >= 0);
            if m * n == 0 {
                assert((b - a) * num == 0);
                assert(0int / d == 0) by (nonlinear_arith)
                    requires
                        0 < d,
                ;
            }
        }
    }
    let q: i128 = (mag * (num as i128)) / (den as i128);
    let r: i128 = if diff >= 0 {
        a as i128 + q
    } else {
        a as i128 - q
    };
    r as i32
}

/// The point `num / den` of the way along the line from `a` to `b`.
pub fn lerp(a: Pos, b: Pos, num: u64, den: u64) -> (r: Pos)
    requires
        0 < den,
        num <= den,
    ensures
        r == spec_lerp(a, b, num as int, den as int),
        num == 0 ==> r == a,
        num == den ==> r == b,
{
    Pos(lerp_one(a.0, b.0, num, den), lerp_one(a.1, b.1, num, den))
}

/// A piece that runs one cell along a grid line.
#[derive(Debug, Copy, Clone, PartialEq, Eq, Structural)]
pub struct Straight {
    pub start: Connection,
    pub end: Connection,
}

impl Straight {
    /// The straight piece from `start` to `end`.
    pub fn new(start: Connection, end: Connection) -> (r: Straight)
        ensures
            r.start == start,
            r.end == end,
    {
        Straight { start, end }
    }

    /// The point `num / den` of the way along the piece.
    pub fn lerp(&self, num: u64, den: u64) -> (r: Pos)
        requires
            0 < den,
            num <= den,
        ensures
            r == spec_lerp(self.start.pos, self.end.pos, num as int, den as int),
            num == 0 ==> r == self.start.pos,
            num == den ==> r == self.end.pos,
    {
        lerp(self.start.pos, self.end.pos, num, den)
    }
}

impl TrackPiece for Straight {
    open spec fn spec_start(&self) -> Connection {
        self.start
    }

    open spec fn spec_end(&self) -> Connection {
        self.end
    }

    open spec fn spec_len(&self, grid: Grid) -> i32 {
        grid.cell
    }

    fn start(&self) -> (r: Connection) {
        self.start
    }

    fn end(&self) -> (r: Connection) {
        self.end
    }

    fn len(&self, grid: &Grid) -> (r: i32) {
        grid.cell
    }
}

/// A piece that runs along a diagonal of the grid.
#[derive(Debug, Copy, Clone, PartialEq, Eq, Structural)]
pub struct Diagonal {
    pub start: Connection,
    pub end: Connection,
}

impl Diagonal {
    /// The diagonal piece from `start` to `end`.
    pub fn new(start: Connection, end: Connection) -> (r: Diagonal)
        ensures
            r.start == start,
            r.end == end,
    {
        Diagonal { start, end }
    }

    /// The point `num / den` of the way along the piece.
    pub fn lerp(&self, num: u64, den: u64) -> (r: Pos)
        requires
            0 < den,
            num <= den,
        ensures
            r == spec_lerp(self.start.pos, self.end.pos, num as int, den as int),
            num == 0 ==> r == self.start.pos,
            num == den ==> r == self.end.pos,
    {
        lerp(self.start.pos, self.end.pos, num, den)
    }
}

impl TrackPiece for Diagonal {
    open spec fn spec_start(&self) -> Connection {
        self.start
    }

    open spec fn spec_end(&self) -> Connection {
        self.end
    }

    open spec fn spec_len(&self, grid: Grid) -> i32 {
        grid.diag
    }

    fn start(&self) -> (r: Connection) {
        self.start
    }

    fn end(&self) -> (r: Connection) {
        self.end
    }

    fn len(&self, grid: &Grid) -> (r: i32) {
        grid.diag
    }
}

/// How the arc between two directions next to each other lies.
#[derive(Debug, Copy, Clone, PartialEq, Eq, Structural)]
pub struct Bend {
    /// Whether the centre is placed from the arc's end (or from its start).
    pub at_end: bool,
    /// The direction from that point to the centre.
    pub toward: Dir,
    /// The way the arc curves: 1 for growing angles, -1 for falling ones.
    pub sign: i8,
    /// The angle at which that point is seen from the centre, in quarters of
    /// a full turn.
    pub quarter: u8,
}

/// The arc for each of the sixteen pairs of directions next to each other;
/// no other pair has one.
pub open spec fn spec_bend(from: Dir, to: Dir) -> Option<Bend> {
    match (from, to) {
        (Dir::Up, Dir::UpLeft) => Some(Bend { at_end: false, toward: Dir::Left, sign: 1, quarter: 0 }),
        (Dir::Up, Dir::UpRight) => Some(Bend { at_end: false, toward: Dir::Right, sign: -1i8, quarter: 2 }),
        (Dir::UpRight, Dir::Up) => Some(Bend { at_end: true, toward: Dir::Left, sign: 1, quarter: 0 }),
        (Dir::UpRight, Dir::Right) => Some(Bend { at_end: true, toward: Dir::Down, sign: -1i8, quarter: 1 }),
        (Dir::Right, Dir::UpRight) => Some(Bend { at_end: false, toward: Dir::Up, sign: 1, quarter: 3 }),
        (Dir::Right, Dir::DownRight) => Some(
            Bend { at_end: false, toward: Dir::Down, sign: -1i8, quarter: 1 },
        ),
        (Dir::DownRight, Dir::Right) => Some(Bend { at_end: true, toward: Dir::Up, sign: 1, quarter: 3 }),
        (Dir::DownRight, Dir::Down) => Some(Bend { at_end: true, toward: Dir::Left, sign: -1i8, quarter: 0 }),
        (Dir::Down, Dir::DownRight) => Some(Bend { at_end: false, toward: Dir::Right, sign: 1, quarter: 2 }),
        (Dir::Down, Dir::DownLeft) => Some(Bend { at_end: false, toward: Dir::Left, sign: -1i8, quarter: 0 }),
        (Dir::DownLeft, Dir::Down) => Some(Bend { at_end: true, toward: Dir::Right, sign: 1, quarter: 2 }),
        (Dir::DownLeft, Dir::Left) => Some(Bend { at_end: true, toward: Dir::Up, sign: -1i8, quarter: 3 }),
        (Dir::Left, Dir::DownLeft) => Some(Bend { at_end: false, toward: Dir::Down, sign: 1, quarter: 1 }),
        (Dir::Left, Dir::UpLeft) => Some(Bend { at_end: false, toward: Dir::Up, sign: -1i8, quarter: 3 }),
        (Dir::UpLeft, Dir::Left) => Some(Bend { at_end: true, toward: Dir::Down, sign: 1, quarter: 1 }),
        (Dir::UpLeft, Dir::Up) => Some(Bend { at_end: true, toward: Dir::Right, sign: -1i8, quarter: 2 }),
        _ => None,
    }
}

/// The arc between two directions, where they are next to each other.
pub fn bend(from: Dir, to: Dir) -> (r: Option<Bend>)
    ensures
        r == spec_bend(from, to),
        r is Some <==> from.adjacent(to),
{
    match (from, to) {
        (Dir::Up, Dir::UpLeft) => Some(Bend { at_end: false, toward: Dir::Left, sign: 1, quarter: 0 }),
        (Dir::Up, Dir::UpRight) => Some(Bend { at_end: false, toward: Dir::Right, sign: -1, quarter: 2 }),
        (Dir::UpRight, Dir::Up) => Some(Bend { at_end: true, toward: Dir::Left, sign: 1, quarter: 0 }),
        (Dir::UpRight, Dir::Right) => Some(Bend { at_end: true, toward: Dir::Down, sign: -1, quarter: 1 }),
        (Dir::Right, Dir::UpRight) => Some(Bend { at_end: false, toward: Dir::Up, sign: 1, quarter: 3 }),
        (Dir::Right, Dir::DownRight) => Some(
            Bend { at_end: false, toward: Dir::Down, sign: -1, quarter: 1 },
        ),
        (Dir::DownRight, Dir::Right) => Some(Bend { at_end: true, toward: Dir::Up, sign: 1, quarter: 3 }),
        (Dir::DownRight, Dir::Down) => Some(Bend { at_end: true, toward: Dir::Left, sign: -1, quarter: 0 }),
        (Dir::Down, Dir::DownRight) => Some(Bend { at_end: false, toward: Dir::Right, sign: 1, quarter: 2 }),
        (Dir::Down, Dir::DownLeft) => Some(Bend { at_end: false, toward: Dir::Left, sign: -1, quarter: 0 }),
        (Dir::DownLeft, Dir::Down) => Some(Bend { at_end: true, toward: Dir::Right, sign: 1, quarter: 2 }),
        (Dir::DownLeft, Dir::Left) => Some(Bend { at_end: true, toward: Dir::Up, sign: -1, quarter: 3 }),
        (Dir::Left, Dir::DownLeft) => Some(Bend { at_end: false, toward: Dir::Down, sign: 1, quarter: 1 }),
        (Dir::Left, Dir::UpLeft) => Some(Bend { at_end: false, toward: Dir::Up, sign: -1, quarter: 3 }),
        (Dir::UpLeft, Dir::Left) => Some(Bend { at_end: true, toward: Dir::Down, sign: 1, quarter: 1 }),
        (Dir::UpLeft, Dir::Up) => Some(Bend { at_end: true, toward: Dir::Right, sign: -1, quarter: 2 }),
        _ => None,
    }
}

/// A piece that turns by one step of 45 degrees along an arc of the fixed
/// radius.
#[derive(Debug, Copy, Clone, PartialEq, Eq, Structural)]
pub struct Turn {
    pub start: Connection,
    pub end: Connection,
    /// The first coordinate of the centre of the arc's circle.
    pub center_x: i64,
    /// The second coordinate of the centre.
    pub center_y: i64,
    /// How the arc lies about its centre.
    pub bend: Bend,
}

impl Turn {
    /// The centre of the arc from `start` to `end` that lies as `b` says:
    /// two and a half cells from the start or the end, each coordinate
    /// rounded toward zero.
    pub open spec fn spec_center(grid: Grid, start: Connection, end: Connection, b: Bend) -> (int, int) {
        let from = if b.at_end {
            end.pos
        } else {
            start.pos
        };
        (
            trunc_div(2 * from.0 + 5 * b.toward.signs().0 * grid.cell, 2),
            trunc_div(2 * from.1 + 5 * b.toward.signs().1 * grid.cell, 2),
        )
    }

    /// The turn from `start` to `end`, whose directions are next to each
    /// other.
    pub fn new(grid: &Grid, start: Connection, end: Connection) -> (r: Turn)
        requires
            grid.wf(),
            start.dir.adjacent(end.dir),
        ensures
            r.start == start,
            r.end == end,
            Some(r.bend) == spec_bend(start.dir, end.dir),
            (r.center_x as int, r.center_y as int) == Turn::spec_center(*grid, start, end, r.bend),
    {
        let b = bend(start.dir, end.dir).unwrap();
        let from = if b.at_end {
            end.pos
        } else {
            start.pos
        };
        let (sx, sy): (i64, i64) = match b.toward {
            Dir::Up => (0, 1),
            Dir::UpRight => (1, 1),
            Dir::Right => (1, 0),
            Dir::DownRight => (1, -1),
            Dir::Down => (0, -1),
            Dir::DownLeft => (-1, -1),
            Dir::Left => (-1, 0),
            Dir::UpLeft => (-1, 1),
        };
        let cell: i64 = grid.cell as i64;
        assert(-cell <= sx * cell <= cell && -cell <= sy * cell <= cell) by (nonlinear_arith)
            requires
                -1 <= sx <= 1,
                -1 <= sy <= 1,
                0 < cell,
        ;
        assert(5 * b.toward.signs().0 * grid.cell == 5 * (sx * cell)) by (nonlinear_arith)
            requires
                b.toward.signs().0 == sx,
                grid.cell == cell,
        ;
        assert(5 * b.toward.signs().1 * grid.cell == 5 * (sy * cell)) by (nonlinear_arith)
            requires
                b.toward.signs().1 == sy,
                grid.cell == cell,
        ;
        let cx: i64 = (2 * (from.0 as i64) + 5 * (sx * cell)) / 2;
        let cy: i64 = (2 * (from.1 as i64) + 5 * (sy * cell)) / 2;
        Turn { start, end, center_x: cx, center_y: cy, bend: b }
    }
}

impl TrackPiece for Turn {
    open spec fn spec_start(&self) -> Connection {
        self.start
    }

    open spec fn spec_end(&self) -> Connection {
        self.end
    }

    open spec fn spec_len(&self, grid: Grid) -> i32 {
        grid.turn
    }

    fn start(&self) -> (r: Connection) {
        self.start
    }

    fn end(&self) -> (r: Connection) {
        self.end
    }

    fn len(&self, grid: &Grid) -> (r: i32) {
        grid.turn
    }
}

/// A piece of track of one of the three kinds.
#[derive(Debug, Copy, Clone, PartialEq, Eq, Structural)]
pub enum Track {
    Diag(Diagonal),
    Turn(Turn),
    Strt(Straight),
}

/// Whether a piece can join a connection of direction `a` to one of
/// direction `b`: the two are equal or next to each other.
pub open spec fn joins(a: Dir, b: Dir) -> bool {
    a == b || a.adjacent(b)
}

impl Track {
    /// The piece from `start` to `end`: straight or diagonal where the
    /// direction stays, a turn where it changes by one step.
    pub open spec fn spec_from(grid: Grid, start: Connection, end: Connection) -> Track {
        if start.dir != end.dir {
            let b = spec_bend(start.dir, end.dir)->Some_0;
            let c = Turn::spec_center(grid, start, end, b);
            Track::Turn(Turn { start, end, center_x: c.0 as i64, center_y: c.1 as i64, bend: b })
        } else if start.dir.is_diagonal() {
            Track::Diag(Diagonal { start, end })
        } else {
            Track::Strt(Straight { start, end })
        }
    }

    /// The piece that joins `start` to `end`, whose directions are equal or
    /// next to each other.
    pub fn from(grid: &Grid, start: Connection, end: Connection) -> (r: Track)
        requires
            grid.wf(),
            joins(start.dir, end.dir),
        ensures
            r == Track::spec_from(*grid, start, end),
            r.spec_start() == start,
            r.spec_end() == end,
    {
        if start.dir != end.dir {
            Track::Turn(Turn::new(grid, start, end))
        } else {
            match start.dir {
                Dir::UpRight | Dir::DownRight | Dir::DownLeft | Dir::UpLeft => Track::Diag(
                    Diagonal::new(start, end),
                ),
                _ => Track::Strt(Straight::new(start, end)),
            }
        }
    }
}

impl TrackPiece for Track {
    open spec fn spec_start(&self) -> Connection {
        match self {
            Track::Turn(t) => t.start,
            Track::Diag(t) => t.start,
            Track::Strt(t) => t.start,
        }
    }

    open spec fn spec_end(&self) -> Connection {
        match self {
            Track::Turn(t) => t.end,
            Track::Diag(t) => t.end,
            Track::Strt(t) => t.end,
        }
    }

    open spec fn spec_len(&self, grid: Grid) -> i32 {
        match self {
            Track::Turn(_) => grid.turn,
            Track::Diag(_) => grid.diag,
            Track::Strt(_) => grid.cell,
        }
    }

    fn start(&self) -> (r: Connection) {
        match self {
            Track::Turn(t) => t.start(),
            Track::Diag(t) => t.start(),
            Track::Strt(t) => t.start(),
        }
    }

    fn end(&self) -> (r: Connection) {
        match self {
            Track::Turn(t) => t.end(),
            Track::Diag(t) => t.end(),
            Track::Strt(t) => t.end(),
        }
    }

    fn len(&self, grid: &Grid) -> (r: i32) {
        match self {
            Track::Turn(t) => t.len(grid),
            Track::Diag(t) => t.len(grid),
            Track::Strt(t) => t.len(grid),
        }
    }
}

/// The pieces between each connection of `path` and the next.
pub open spec fn spec_assemble(grid: Grid, path: Seq<Connection>) -> Seq<Track> {
    Seq::new(
        if path.len() == 0 {
            0nat
        } else {
            (path.len() - 1) as nat
        },
        |i: int| Track::spec_from(grid, path[i], path[i + 1]),
    )
}

/// Whether the connection `i` of `path` can be joined to the one after it.
pub open spec fn joined_at(path: Seq<Connection>, i: int) -> bool {
    joins(path[i].dir, path[i + 1].dir)
}

/// Whether each connection of `path` can be joined to the next.
pub open spec fn joinable(path: Seq<Connection>) -> bool {
    forall|i: int| 0 <= i && i + 1 < path.len() ==> #[trigger] joined_at(path, i)
}

/// The pieces that lead along `path`, one between each connection and the
/// next, in order.
pub fn assemble(grid: &Grid, path: &Vec<Connection>) -> (r: Vec<Track>)
    requires
        grid.wf(),
        joinable(path@),
    ensures
        r@ == spec_assemble(*grid, path@),
{
    let mut out: Vec<Track> = Vec::new();
    let mut i: usize = 1;
    while i < path.len()
        invariant
            grid.wf(),
            joinable(path@),
            1 <= i,
            path.len() > 0 ==> i <= path.len(),
            path.len() > 0 ==> out@.len() == i - 1,
            path.len() == 0 ==> out@.len() == 0,
            forall|j: int|
                0 <= j < out@.len() ==> (#[trigger] out@[j]) == Track::spec_from(
                    *grid,
                    path@[j],
                    path@[j + 1],
                ),
        decreases path.len() - i,
    {
        let a = path[i - 1];
        let b = path[i];
        assert(joined_at(path@, i - 1));
        out.push(Track::from(grid, a, b));
        i += 1;
    }
    assert(out@ =~= spec_assemble(*grid, path@));
    out
}

/// The product of a small number and another, for each small number.
pub proof fn lemma_small_mul(k: int, c: int)
    requires
        -5 <= k <= 5,
    ensures
        k == 0 ==> k * c == 0,
        k == 1 ==> k * c == c,
        k == 2 ==> k * c == 2 * c,
        k == 3 ==> k * c == 3 * c,
        k == 5 ==> k * c == 5 * c,
        k == -1 ==> k * c == -c,
        k == -2 ==> k * c == -2 * c,
        k == -3 ==> k * c == -3 * c,
        k == -5 ==> k * c == -5 * c,
{
    assert(k == 0 ==> k * c == 0) by (nonlinear_arith);
    assert(k == 1 ==> k * c == c) by (nonlinear_arith);
    assert(k == 2 ==> k * c == 2 * c) by (nonlinear_arith);
    assert(k == 3 ==> k * c == 3 * c) by (nonlinear_arith);
    assert(k == 5 ==> k * c == 5 * c) by (nonlinear_arith);
    assert(k == -1 ==> k * c == -c) by (nonlinear_arith);
    assert(k == -2 ==> k * c == -2 * c) by (nonlinear_arith);
    assert(k == -3 ==> k * c == -3 * c) by (nonlinear_arith);
    assert(k == -5 ==> k * c == -5 * c) by (nonlinear_arith);
}

/// On cells of even width a move by half cells is exact.
pub proof fn lemma_half_shift_even(p: int, k: int, h: int)
    ensures
        half_shift(p, k, 2 * h) == p + k * h,
{
    let n = 2 * p + k * (2 * h);
    assert(n == 2 * (p + k * h)) by (nonlinear_arith)
        requires
            n == 2 * p + k * (2 * h),
    ;
}

/// A straight piece along an edge of the graph is exactly as long as its two
/// ends are apart.
pub proof fn lemma_straight_length(grid: Grid, a: Connection, k: int)
    requires
        grid.wf(),
        0 <= k < neighbors(grid, a).len(),
        neighbors(grid, a)[k].0.dir == a.dir,
        !a.dir.is_diagonal(),
    ensures
        ({
            let b = neighbors(grid, a)[k].0;
            let t = Track::spec_from(grid, a, b);
            let dx = b.pos.0 - a.pos.0;
            let dy = b.pos.1 - a.pos.1;
            t is Strt && t.spec_len(grid) * t.spec_len(grid) == dx * dx + dy * dy
        }),
{
    let hops = spec_hops(a.dir, a.pos.0 as int % grid.cell as int == 0);
    let j = lemma_kept(grid, a, hops, k);
    let hop = hops[j];
    let b = neighbors(grid, a)[k].0;
    let dx = b.pos.0 - a.pos.0;
    let dy = b.pos.1 - a.pos.1;
    let c = grid.cell as int;
    assert(hop.2 == a.dir);
    lemma_small_mul(hop.0 as int, c);
    lemma_small_mul(hop.1 as int, c);
    assert(b.pos.0 == half_shift(a.pos.0 as int, hop.0 as int, c));
    assert(b.pos.1 == half_shift(a.pos.1 as int, hop.1 as int, c));
    assert((dx == c || dx == -c) && dy == 0 || dx == 0 && (dy == c || dy == -c));
    assert(dx * dx + dy * dy == c * c) by (nonlinear_arith)
        requires
            (dx == c || dx == -c) && dy == 0 || dx == 0 && (dy == c || dy == -c),
    ;
}

/// A diagonal piece whose ends are one cell apart along both coordinates is
/// as long as its ends are apart, rounded down to whole pixels.
pub proof fn lemma_diagonal_length(grid: Grid, d: Diagonal)
    requires
        grid.wf(),
        d.end.pos.0 - d.start.pos.0 == grid.cell || d.start.pos.0 - d.end.pos.0 == grid.cell,
        d.end.pos.1 - d.start.pos.1 == grid.cell || d.start.pos.1 - d.end.pos.1 == grid.cell,
    ensures
        ({
            let dx = d.end.pos.0 - d.start.pos.0;
            let dy = d.end.pos.1 - d.start.pos.1;
            is_floor_sqrt(d.spec_len(grid) as int, dx * dx + dy * dy)
        }),
{
    let dx = d.end.pos.0 - d.start.pos.0;
    let dy = d.end.pos.1 - d.start.pos.1;
    let c = grid.cell as int;
    assert(dx * dx + dy * dy == 2 * c * c) by (nonlinear_arith)
        requires
            dx == c || dx == -c,
            dy == c || dy == -c,
    ;
}

/// The vector of length `r` at the angle of `q` quarters of a full turn.
pub open spec fn arm(q: int, r: int) -> (int, int) {
    if q == 0 {
        (r, 0)
    } else if q == 1 {
        (0, r)
    } else if q == 2 {
        (-r, 0)
    } else {
        (0, -r)
    }
}

/// Five times the vector `v` turned by the angle of a turn piece, whose
/// cosine is four fifths and whose sine is three fifths: toward growing
/// angles where `sign` is positive, toward falling ones where it is not.
pub open spec fn swept(v: (int, int), sign: int) -> (int, int) {
    if sign > 0 {
        (4 * v.0 - 3 * v.1, 4 * v.1 + 3 * v.0)
    } else {
        (4 * v.0 + 3 * v.1, 4 * v.1 - 3 * v.0)
    }
}

/// Where the arc of a turn begins, seen from its centre, on a grid whose
/// cells are `2 * h` wide: five times `h` from the centre at the bend's
/// angle, or one turn angle before that where the bend is placed from the
/// arc's end.
pub open spec fn arc_start(b: Bend, h: int) -> (int, int) {
    if b.at_end {
        swept(arm(b.quarter as int, h), -b.sign)
    } else {
        arm(b.quarter as int, 5 * h)
    }
}

/// Where the arc of a turn ends, seen from its centre: one turn angle after
/// its beginning.
pub open spec fn arc_end(b: Bend, h: int) -> (int, int) {
    if b.at_end {
        arm(b.quarter as int, 5 * h)
    } else {
        swept(arm(b.quarter as int, h), b.sign as int)
    }
}

/// How far a turn from the direction `from` to the direction `to` leads
/// along each coordinate, on cells `2 * h` wide: three half cells along the
/// straight direction of the two and one across it.
pub open spec fn turn_step(from: Dir, to: Dir, h: int) -> (int, int) {
    let straight = if from.is_diagonal() {
        to
    } else {
        from
    };
    let other = if from.is_diagonal() {
        from
    } else {
        to
    };
    if straight == Dir::Up || straight == Dir::Down {
        (other.signs().0 * h, straight.signs().1 * 3 * h)
    } else {
        (straight.signs().0 * 3 * h, other.signs().1 * h)
    }
}

/// The vector of length `r` in the straight direction `d`.
pub open spec fn toward_vec(d: Dir, r: int) -> (int, int) {
    match d {
        Dir::Up => (0, r),
        Dir::Right => (r, 0),
        Dir::Down => (0, -r),
        Dir::Left => (-r, 0),
        _ => (0, 0),
    }
}

/// Each step out of a connection that changes the direction leads as far as
/// a turn between the two directions does.
pub proof fn lemma_hop_is_turn_step(dir: Dir, on_line: bool, j: int, h: int)
    requires
        0 <= j < spec_hops(dir, on_line).len(),
        spec_hops(dir, on_line)[j].2 != dir,
    ensures
        ({
            let hop = spec_hops(dir, on_line)[j];
            (hop.0 * h, hop.1 * h) == turn_step(dir, hop.2, h)
        }),
{
    let hop = spec_hops(dir, on_line)[j];
    lemma_small_mul(hop.0 as int, h);
    lemma_small_mul(hop.1 as int, h);
    lemma_small_mul(hop.2.signs().0, h);
    lemma_small_mul(hop.2.signs().1, h);
    lemma_small_mul(dir.signs().0, h);
    lemma_small_mul(dir.signs().1, h);
    lemma_small_mul(hop.2.signs().0, 3 * h);
    lemma_small_mul(hop.2.signs().1, 3 * h);
    lemma_small_mul(dir.signs().0, 3 * h);
    lemma_small_mul(dir.signs().1, 3 * h);
    assert(hop.2.signs().1 * 3 * h == hop.2.signs().1 * (3 * h)) by (nonlinear_arith);
    assert(hop.2.signs().0 * 3 * h == hop.2.signs().0 * (3 * h)) by (nonlinear_arith);
    assert(dir.signs().1 * 3 * h == dir.signs().1 * (3 * h)) by (nonlinear_arith);
    assert(dir.signs().0 * 3 * h == dir.signs().0 * (3 * h)) by (nonlinear_arith);
}

/// A turn that leads as far as a turn between its directions does begins
/// and ends on its arc: with the centre five times `h` from the start or the
/// end, as the bend says, the start is where the arc begins and the end is
/// where it ends.
pub proof fn lemma_turn_geometry(from: Dir, to: Dir, a: (int, int), b: (int, int), h: int)
    requires
        from.adjacent(to),
        (b.0 - a.0, b.1 - a.1) == turn_step(from, to, h),
    ensures
        ({
            let bend = spec_bend(from, to)->Some_0;
            let anchor = if bend.at_end {
                b
            } else {
                a
            };
            let c = (
                anchor.0 + toward_vec(bend.toward, 5 * h).0,
                anchor.1 + toward_vec(bend.toward, 5 * h).1,
            );
            &&& spec_bend(from, to) is Some
            &&& (a.0 - c.0, a.1 - c.1) == arc_start(bend, h)
            &&& (b.0 - c.0, b.1 - c.1) == arc_end(bend, h)
        }),
{
    lemma_small_mul(from.signs().0, h);
    lemma_small_mul(from.signs().1, h);
    lemma_small_mul(to.signs().0, h);
    lemma_small_mul(to.signs().1, h);
    lemma_small_mul(from.signs().0, 3 * h);
    lemma_small_mul(from.signs().1, 3 * h);
    lemma_small_mul(to.signs().0, 3 * h);
    lemma_small_mul(to.signs().1, 3 * h);
    assert(to.signs().1 * 3 * h == to.signs().1 * (3 * h)) by (nonlinear_arith);
    assert(to.signs().0 * 3 * h == to.signs().0 * (3 * h)) by (nonlinear_arith);
    assert(from.signs().1 * 3 * h == from.signs().1 * (3 * h)) by (nonlinear_arith);
    assert(from.signs().0 * 3 * h == from.signs().0 * (3 * h)) by (nonlinear_arith);
}

/// On cells `2 * h` wide the centre of a turn lies exactly five times `h`
/// from the start or the end, in the direction that the bend names.
pub proof fn lemma_center_even(grid: Grid, start: Connection, end: Connection, b: Bend, h: int)
    requires
        grid.cell == 2 * h,
        !b.toward.is_diagonal(),
    ensures
        ({
            let from = if b.at_end {
                end.pos
            } else {
                start.pos
            };
            Turn::spec_center(grid, start, end, b) == (
                from.0 + toward_vec(b.toward, 5 * h).0,
                from.1 + toward_vec(b.toward, 5 * h).1,
            )
        }),
{
    let sx = b.toward.signs().0;
    let sy = b.toward.signs().1;
    lemma_small_mul(5 * sx, grid.cell as int);
    lemma_small_mul(5 * sy, grid.cell as int);
}

/// On a grid of even cell size, the arc of a turn along an edge of the graph
/// begins at the edge's first connection and ends at its second: the point
/// at the bend's angle and the point one turn angle further round the centre
/// are the two ends of the piece, both at the turn radius from the centre.
pub proof fn lemma_turn_ends(grid: Grid, a: Connection, k: int)
    requires
        grid.wf(),
        grid.cell % 2 == 0,
        0 <= k < neighbors(grid, a).len(),
        neighbors(grid, a)[k].0.dir != a.dir,
    ensures
        ({
            let b = neighbors(grid, a)[k].0;
            let bend = spec_bend(a.dir, b.dir);
            let c = Turn::spec_center(grid, a, b, bend->Some_0);
            let h = grid.cell / 2;
            &&& bend is Some
            &&& Track::spec_from(grid, a, b) is Turn
            &&& (a.pos.0 - c.0, a.pos.1 - c.1) == arc_start(bend->Some_0, h)
            &&& (b.pos.0 - c.0, b.pos.1 - c.1) == arc_end(bend->Some_0, h)
        }),
{
    let on_line = a.pos.0 as int % grid.cell as int == 0;
    let hops = spec_hops(a.dir, on_line);
    let j = lemma_kept(grid, a, hops, k);
    let hop = hops[j];
    let b = neighbors(grid, a)[k].0;
    let h = grid.cell as int / 2;
    assert(grid.cell == 2 * h);
    assert(hop.2 == b.dir);
    lemma_neighbors(grid, a);
    assert(a.dir.adjacent(b.dir));
    lemma_half_shift_even(a.pos.0 as int, hop.0 as int, h);
    lemma_half_shift_even(a.pos.1 as int, hop.1 as int, h);
    assert(b.pos.0 == a.pos.0 + hop.0 * h);
    assert(b.pos.1 == a.pos.1 + hop.1 * h);
    lemma_hop_is_turn_step(a.dir, on_line, j, h);
    lemma_turn_geometry(
        a.dir,
        b.dir,
        (a.pos.0 as int, a.pos.1 as int),
        (b.pos.0 as int, b.pos.1 as int),
        h,
    );
    let bend = spec_bend(a.dir, b.dir)->Some_0;
    assert(!bend.toward.is_diagonal());
    lemma_center_even(grid, a, b, bend, h);
}

} // verus!
