use crate::grid::Grid;
use crate::path::search::is_walk;
use crate::path::search::edge_at;
use crate::path::search::reachable;
use crate::path::search::spec_estimate;
use crate::path::search::spec_find_path;
use crate::path::search::way_view;
use crate::path::track::assemble;
use crate::path::track::joinable;
use crate::path::track::joined_at;
use crate::path::track::spec_assemble;
use crate::path::track::Track;
use crate::path::track::TrackPiece;
use vstd::arithmetic::div_mod::lemma_fundamental_div_mod;
use vstd::arithmetic::div_mod::lemma_mod_multiples_basic;
use vstd::prelude::*;

pub mod search;
pub mod track;

verus! {

/// A point of the canvas, in pixels.
#[derive(Debug, Copy, Clone, PartialEq, Eq, Hash, Structural)]
pub struct Pos(pub i32, pub i32);

impl Pos {
    /// The sum of two points, coordinate by coordinate.
    pub fn add(self, rhs: Pos) -> (r: Pos)
        requires
            i32::MIN <= self.0 + rhs.0 <= i32::MAX,
            i32::MIN <= self.1 + rhs.1 <= i32::MAX,
        ensures
            r.0 == self.0 + rhs.0,
            r.1 == self.1 + rhs.1,
    {
        Pos(self.0 + rhs.0, self.1 + rhs.1)
    }

    /// The difference of two points, coordinate by coordinate.
    pub fn sub(self, rhs: Pos) -> (r: Pos)
        requires
            i32::MIN <= self.0 - rhs.0 <= i32::MAX,
            i32::MIN <= self.1 - rhs.1 <= i32::MAX,
        ensures
            r.0 == self.0 - rhs.0,
            r.1 == self.1 - rhs.1,
    {
        Pos(self.0 - rhs.0, self.1 - rhs.1)
    }
}

/// One of the eight directions of travel. `Up` is the direction in which the
/// second coordinate grows.
#[derive(Debug, Copy, Clone, PartialEq, Eq, Hash, Structural)]
pub enum Dir {
    Up,
    UpRight,
    Right,
    DownRight,
    Down,
    DownLeft,
    Left,
    UpLeft,
}

impl Dir {
    /// The direction's place on the compass, clockwise from `Up`.
    pub open spec fn index(self) -> int {
        match self {
            Dir::Up => 0,
            Dir::UpRight => 1,
            Dir::Right => 2,
            Dir::DownRight => 3,
            Dir::Down => 4,
            Dir::DownLeft => 5,
            Dir::Left => 6,
            Dir::UpLeft => 7,
        }
    }

    /// Whether the direction is one of the four diagonals.
    pub open spec fn is_diagonal(self) -> bool {
        self.index() % 2 == 1
    }

    /// Whether the two directions are one step of 45 degrees apart.
    pub open spec fn adjacent(self, other: Dir) -> bool {
        let d = self.index() - other.index();
        d == 1 || d == -1 || d == 7 || d == -7
    }

    /// The direction that points the other way.
    pub open spec fn spec_opposite(self) -> Dir {
        match self {
            Dir::Up => Dir::Down,
            Dir::UpRight => Dir::DownLeft,
            Dir::Right => Dir::Left,
            Dir::DownRight => Dir::UpLeft,
            Dir::Down => Dir::Up,
            Dir::DownLeft => Dir::UpRight,
            Dir::Left => Dir::Right,
            Dir::UpLeft => Dir::DownRight,
        }
    }

    /// The signs of the direction's two coordinates.
    pub open spec fn signs(self) -> (int, int) {
        match self {
            Dir::Up => (0, 1),
            Dir::UpRight => (1, 1),
            Dir::Right => (1, 0),
            Dir::DownRight => (1, -1),
            Dir::Down => (0, -1),
            Dir::DownLeft => (-1, -1),
            Dir::Left => (-1, 0),
            Dir::UpLeft => (-1, 1),
        }
    }

    /// The step of one piece's length in this direction along each
    /// coordinate that the direction has.
    pub open spec fn spec_to_pos(self, grid: Grid) -> Pos {
        let len = if self.is_diagonal() {
            grid.diag
        } else {
            grid.cell
        };
        Pos((self.signs().0 * len) as i32, (self.signs().1 * len) as i32)
    }

    /// The step of one piece's length in this direction: one cell for the
    /// four straight directions, one diagonal length along both coordinates
    /// for the others.
    pub fn to_pos(&self, grid: &Grid) -> (r: Pos)
        requires
            grid.wf(),
        ensures
            r == self.spec_to_pos(*grid),
    {
        let diag: i32 = grid.diag;
        let strt: i32 = grid.cell;
        match self {
            Dir::Up => Pos(0, strt),
            Dir::UpRight => Pos(diag, diag),
            Dir::Right => Pos(strt, 0),
            Dir::DownRight => Pos(diag, -diag),
            Dir::Down => Pos(0, -strt),
            Dir::DownLeft => Pos(-diag, -diag),
            Dir::Left => Pos(-strt, 0),
            Dir::UpLeft => Pos(-diag, diag),
        }
    }

    /// The direction that points the other way.
    pub fn opposite(&self) -> (r: Dir)
        ensures
            r == self.spec_opposite(),
            r.index() == (self.index() + 4) % 8,
    {
        match self {
            Dir::Up => Dir::Down,
            Dir::UpRight => Dir::DownLeft,
            Dir::Right => Dir::Left,
            Dir::DownRight => Dir::UpLeft,
            Dir::Down => Dir::Up,
            Dir::DownLeft => Dir::UpRight,
            Dir::Left => Dir::Right,
            Dir::UpLeft => Dir::DownRight,
        }
    }
}

/// A point of the grid together with the direction of travel through it.
#[derive(Debug, Copy, Clone, PartialEq, Eq, Hash, Structural)]
pub struct Connection {
    pub pos: Pos,
    pub dir: Dir,
}

/// One candidate step out of a connection: how many half cells it moves
/// along each coordinate, and the direction it arrives with.
pub type Hop = (i8, i8, Dir);

/// A coordinate moved by `k` half cells, rounded toward zero.
pub open spec fn half_shift(p: int, k: int, cell: int) -> int {
    let n = 2 * p + k * cell;
    if n >= 0 {
        n / 2
    } else {
        -((-n) / 2)
    }
}

/// The steps that leave a connection of direction `dir`, in the order in
/// which they are offered. From a diagonal the turn leads to the vertical
/// direction where the connection sits on a vertical grid line (`on_line`),
/// and to the horizontal one where it does not.
pub open spec fn spec_hops(dir: Dir, on_line: bool) -> Seq<Hop> {
    match dir {
        Dir::Right => seq![
            (3i8, -1i8, Dir::DownRight),
            (2i8, 0i8, Dir::Right),
            (3i8, 1i8, Dir::UpRight),
        ],
        Dir::UpRight => seq![
            (1i8, 1i8, Dir::UpRight),
            if on_line {
                (1i8, 3i8, Dir::Up)
            } else {
                (3i8, 1i8, Dir::Right)
            },
        ],
        Dir::DownRight => seq![
            (1i8, -1i8, Dir::DownRight),
            if on_line {
                (1i8, -3i8, Dir::Down)
            } else {
                (3i8, -1i8, Dir::Right)
            },
        ],
        Dir::Up => seq![
            (1i8, 3i8, Dir::UpRight),
            (0i8, 2i8, Dir::Up),
            (-1i8, 3i8, Dir::UpLeft),
        ],
        Dir::Down => seq![
            (-1i8, -3i8, Dir::DownLeft),
            (0i8, -2i8, Dir::Down),
            (1i8, -3i8, Dir::DownRight),
        ],
        Dir::Left => seq![
            (-3i8, 1i8, Dir::UpLeft),
            (-2i8, 0i8, Dir::Left),
            (-3i8, -1i8, Dir::DownLeft),
        ],
        Dir::UpLeft => seq![
            (-1i8, 1i8, Dir::UpLeft),
            if on_line {
                (-1i8, 3i8, Dir::Up)
            } else {
                (-3i8, 1i8, Dir::Left)
            },
        ],
        Dir::DownLeft => seq![
            (-1i8, -1i8, Dir::DownLeft),
            if on_line {
                (-1i8, -3i8, Dir::Down)
            } else {
                (-3i8, -1i8, Dir::Left)
            },
        ],
    }
}

/// What the piece between two directions costs: its length in pixels.
pub open spec fn edge_cost(grid: Grid, from: Dir, to: Dir) -> i32 {
    if from != to {
        grid.turn
    } else if from.is_diagonal() {
        grid.diag
    } else {
        grid.cell
    }
}

/// Whether the step `hop` out of `c` ends inside the canvas.
pub open spec fn hop_inside(grid: Grid, c: Connection, hop: Hop) -> bool {
    grid.inside(
        half_shift(c.pos.0 as int, hop.0 as int, grid.cell as int),
        half_shift(c.pos.1 as int, hop.1 as int, grid.cell as int),
    )
}

/// The connection that the step `hop` out of `c` reaches, with its cost.
pub open spec fn hop_edge(grid: Grid, c: Connection, hop: Hop) -> (Connection, i32) {
    (
        Connection {
            pos: Pos(
                half_shift(c.pos.0 as int, hop.0 as int, grid.cell as int) as i32,
                half_shift(c.pos.1 as int, hop.1 as int, grid.cell as int) as i32,
            ),
            dir: hop.2,
        },
        edge_cost(grid, c.dir, hop.2),
    )
}

/// Whether `x` is a multiple of `cell`.
pub fn divides(cell: i32, x: i32) -> (r: bool)
    requires
        0 < cell,
    ensures
        r == (x as int % cell as int == 0),
{
    if x >= 0 {
        x % cell == 0
    } else {
        let n: i64 = -(x as i64);
        proof {
            let c = cell as int;
            lemma_fundamental_div_mod(x as int, c);
            lemma_fundamental_div_mod(n as int, c);
            if x as int % c == 0 {
                assert(n == (-(x as int / c)) * c) by (nonlinear_arith)
                    requires
                        x == c * (x as int / c),
                        n == -x,
                ;
                lemma_mod_multiples_basic(-(x as int / c), c);
            }
            if n as int % c == 0 {
                assert(x == (-(n as int / c)) * c) by (nonlinear_arith)
                    requires
                        n == c * (n as int / c),
                        n == -x,
                ;
                lemma_mod_multiples_basic(-(n as int / c), c);
            }
        }
        n % (cell as i64) == 0
    }
}

/// The edges of the steps in `hops` that end inside the canvas, in order.
pub open spec fn kept(grid: Grid, c: Connection, hops: Seq<Hop>) -> Seq<(Connection, i32)>
    decreases hops.len(),
{
    if hops.len() == 0 {
        Seq::empty()
    } else {
        let rest = kept(grid, c, hops.drop_last());
        if hop_inside(grid, c, hops.last()) {
            rest.push(hop_edge(grid, c, hops.last()))
        } else {
            rest
        }
    }
}

/// The edges that leave `c`: the connections that can be built on from it,
/// each with the length of the piece that leads there.
pub open spec fn neighbors(grid: Grid, c: Connection) -> Seq<(Connection, i32)> {
    kept(grid, c, spec_hops(c.dir, c.pos.0 as int % grid.cell as int == 0))
}

/// Whether a piece can lead from `a` to `b`.
pub open spec fn is_edge(grid: Grid, a: Connection, b: Connection) -> bool {
    exists|i: int| 0 <= i < neighbors(grid, a).len() && (#[trigger] neighbors(grid, a)[i]).0 == b
}

/// The step that the kept edge `i` comes from: it ends inside the canvas,
/// and the edge is the one it gives.
pub proof fn lemma_kept(grid: Grid, c: Connection, hops: Seq<Hop>, i: int) -> (j: int)
    requires
        0 <= i < kept(grid, c, hops).len(),
    ensures
        0 <= j < hops.len(),
        hop_inside(grid, c, hops[j]),
        kept(grid, c, hops)[i] == hop_edge(grid, c, hops[j]),
    decreases hops.len(),
{
    let front = hops.drop_last();
    if i < kept(grid, c, front).len() {
        lemma_kept(grid, c, front, i)
    } else {
        hops.len() - 1
    }
}

/// No more edges are kept than there are steps.
pub proof fn lemma_kept_len(grid: Grid, c: Connection, hops: Seq<Hop>)
    ensures
        kept(grid, c, hops).len() <= hops.len(),
    decreases hops.len(),
{
    if hops.len() > 0 {
        lemma_kept_len(grid, c, hops.drop_last());
    }
}

impl Connection {
    /// The connection at `pos` with the direction `dir`.
    pub fn new(pos: Pos, dir: Dir) -> (r: Connection)
        ensures
            r.pos == pos,
            r.dir == dir,
    {
        Connection { pos, dir }
    }

    /// The steps that leave this connection, before the canvas bounds them.
    fn hops(&self, grid: &Grid) -> (r: Vec<Hop>)
        requires
            grid.wf(),
        ensures
            r@ == spec_hops(self.dir, self.pos.0 as int % grid.cell as int == 0),
            forall|j: int| 0 <= j < r@.len() ==> -3 <= (#[trigger] r@[j]).0 <= 3 && -3 <= r@[j].1 <= 3,
    {
        let on_line = divides(grid.cell, self.pos.0);
        let r = match self.dir {
            Dir::Right => vec![(3i8, -1i8, Dir::DownRight), (2i8, 0i8, Dir::Right), (3i8, 1i8, Dir::UpRight)],
            Dir::UpRight => vec![
                (1i8, 1i8, Dir::UpRight),
                if on_line {
                    (1i8, 3i8, Dir::Up)
                } else {
                    (3i8, 1i8, Dir::Right)
                },
            ],
            Dir::DownRight => vec![
                (1i8, -1i8, Dir::DownRight),
                if on_line {
                    (1i8, -3i8, Dir::Down)
                } else {
                    (3i8, -1i8, Dir::Right)
                },
            ],
            Dir::Up => vec![(1i8, 3i8, Dir::UpRight), (0i8, 2i8, Dir::Up), (-1i8, 3i8, Dir::UpLeft)],
            Dir::Down => vec![(-1i8, -3i8, Dir::DownLeft), (0i8, -2i8, Dir::Down), (1i8, -3i8, Dir::DownRight)],
            Dir::Left => vec![(-3i8, 1i8, Dir::UpLeft), (-2i8, 0i8, Dir::Left), (-3i8, -1i8, Dir::DownLeft)],
            Dir::UpLeft => vec![
                (-1i8, 1i8, Dir::UpLeft),
                if on_line {
                    (-1i8, 3i8, Dir::Up)
                } else {
                    (-3i8, 1i8, Dir::Left)
                },
            ],
            Dir::DownLeft => vec![
                (-1i8, -1i8, Dir::DownLeft),
                if on_line {
                    (-1i8, -3i8, Dir::Down)
                } else {
                    (-3i8, -1i8, Dir::Left)
                },
            ],
        };
        assert(r@ =~= spec_hops(self.dir, self.pos.0 as int % grid.cell as int == 0));
        r
    }

    /// The edges that leave this connection, in the order in which the
    /// directions are offered: each connection that a piece can lead to
    /// inside the canvas, with the length of that piece.
    pub fn gen_connections(&self, grid: &Grid) -> (r: Vec<(Connection, i32)>)
        requires
            grid.wf(),
        ensures
            r@ == neighbors(*grid, *self),
            r@.len() <= 3,
            forall|i: int|
                0 <= i < r@.len() ==> grid.inside((#[trigger] r@[i]).0.pos.0 as int, r@[i].0.pos.1 as int),
    {
        let hops = self.hops(grid);
        let mut out: Vec<(Connection, i32)> = Vec::new();
        let cell: i64 = grid.cell as i64;
        let x: i64 = self.pos.0 as i64;
        let y: i64 = self.pos.1 as i64;
        let mut i: usize = 0;
        while i < hops.len()
            invariant
                grid.wf(),
                0 <= i <= hops.len(),
                cell == grid.cell,
                x == self.pos.0,
                y == self.pos.1,
                out@ == kept(*grid, *self, hops@.take(i as int)),
                forall|j: int|
                    0 <= j < hops@.len() ==> -3 <= (#[trigger] hops@[j]).0 <= 3 && -3 <= hops@[j].1 <= 3,
            decreases hops.len() - i,
        {
            let hop = hops[i];
            assert(hop == hops@[i as int]);
            assert(-3 * cell <= hop.0 * cell <= 3 * cell && -3 * cell <= hop.1 * cell <= 3 * cell)
                by (nonlinear_arith)
                requires
                    -3 <= hop.0 <= 3,
                    -3 <= hop.1 <= 3,
                    0 < cell,
            ;
            let nx: i64 = (2 * x + (hop.0 as i64) * cell) / 2;
            let ny: i64 = (2 * y + (hop.1 as i64) * cell) / 2;
            proof {
                assert(hops@.take(i as int + 1).drop_last() =~= hops@.take(i as int));
                assert(hops@.take(i as int + 1).last() == hop);
                assert(nx == half_shift(x as int, hop.0 as int, cell as int));
                assert(ny == half_shift(y as int, hop.1 as int, cell as int));
            }
            if (grid.min.0 as i64) < nx && nx < grid.max.0 as i64 && (grid.min.1 as i64) < ny && ny
                < grid.max.1 as i64 {
                let cost = if self.dir != hop.2 {
                    grid.turn
                } else if Connection::diagonal(hop.2) {
                    grid.diag
                } else {
                    grid.cell
                };
                out.push((Connection { pos: Pos(nx as i32, ny as i32), dir: hop.2 }, cost));
            }
            i += 1;
        }
        proof {
            assert(hops@.take(hops@.len() as int) =~= hops@);
            lemma_neighbors(*grid, *self);
        }
        out
    }

    fn diagonal(dir: Dir) -> (r: bool)
        ensures
            r == dir.is_diagonal(),
    {
        match dir {
            Dir::UpRight | Dir::DownRight | Dir::DownLeft | Dir::UpLeft => true,
            _ => false,
        }
    }
}

/// Every edge of the graph ends inside the canvas, has a positive cost, and
/// arrives with the direction it left with or with one next to it; no
/// connection has more than three.
pub proof fn lemma_neighbors(grid: Grid, c: Connection)
    requires
        grid.wf(),
    ensures
        neighbors(grid, c).len() <= 3,
        forall|i: int|
            0 <= i < neighbors(grid, c).len() ==> {
                let e = #[trigger] neighbors(grid, c)[i];
                &&& grid.inside(e.0.pos.0 as int, e.0.pos.1 as int)
                &&& e.1 == edge_cost(grid, c.dir, e.0.dir)
                &&& 0 < e.1
                &&& (e.0.dir == c.dir || c.dir.adjacent(e.0.dir))
            },
{
    let hops = spec_hops(c.dir, c.pos.0 as int % grid.cell as int == 0);
    lemma_kept_len(grid, c, hops);
    assert forall|i: int| 0 <= i < neighbors(grid, c).len() implies {
        let e = #[trigger] neighbors(grid, c)[i];
        &&& grid.inside(e.0.pos.0 as int, e.0.pos.1 as int)
        &&& e.1 == edge_cost(grid, c.dir, e.0.dir)
        &&& 0 < e.1
        &&& (e.0.dir == c.dir || c.dir.adjacent(e.0.dir))
    } by {
        let j = lemma_kept(grid, c, hops, i);
        assert(hops[j].2 == c.dir || c.dir.adjacent(hops[j].2));
    }
}

/// Each connection of a walk of the graph can be joined to the next by a
/// piece of track: the pieces along a walk can always be assembled.
pub proof fn lemma_walk_joinable(grid: Grid, w: Seq<Connection>)
    requires
        grid.wf(),
        is_walk(grid, w),
    ensures
        joinable(w),
{
    assert forall|i: int| 0 <= i && i + 1 < w.len() implies #[trigger] joined_at(w, i) by {
        assert(edge_at(grid, w, i));
        lemma_neighbors(grid, w[i]);
        let k = choose|k: int|
            0 <= k < neighbors(grid, w[i]).len() && (#[trigger] neighbors(grid, w[i])[k]).0 == w[i + 1];
        assert(neighbors(grid, w[i])[k].0.dir == w[i + 1].dir);
    }
}

/// A stretch of track under construction: the pieces laid so far, the
/// connection from which the next ones start, and the pieces proposed to
/// follow, which are not laid yet.
pub struct Path {
    /// The connection at which the next pieces start.
    pub start: Connection,
    /// The pieces laid so far.
    pub path: Vec<Track>,
    /// The pieces proposed to follow them, where a way was found.
    pub poss_path: Option<Vec<Track>>,
}

/// The view of a list of pieces that may be missing.
pub open spec fn pieces_view(r: Option<Vec<Track>>) -> Option<Seq<Track>> {
    match r {
        Some(p) => Some(p@),
        None => None,
    }
}

impl Path {
    /// A stretch that starts at `start` with the direction `dir` and has
    /// no pieces yet.
    pub fn new(start: Pos, dir: Dir) -> (r: Path)
        ensures
            r.start == (Connection { pos: start, dir }),
            r.path@.len() == 0,
            r.poss_path is None,
    {
        Path { start: Connection::new(start, dir), path: Vec::new(), poss_path: None }
    }

    /// Lays the proposed pieces: they follow the pieces laid so far, and
    /// the next pieces start where the last of them ends. Without proposed
    /// pieces nothing changes.
    pub fn push(&mut self)
        ensures
            final(self).poss_path is None,
            match old(self).poss_path {
                Some(p) => final(self).path@ == old(self).path@ + p@ && final(self).start == (if p@.len()
                    > 0 {
                    p@.last().spec_end()
                } else {
                    old(self).start
                }),
                None => final(self).path@ == old(self).path@ && final(self).start == old(self).start,
            },
    {
        match self.poss_path.take() {
            Some(mut pieces) => {
                if pieces.len() > 0 {
                    self.start = pieces[pieces.len() - 1].end();
                }
                self.path.append(&mut pieces);
            },
            None => {},
        }
    }

    /// The pieces laid so far followed by the proposed ones, where pieces
    /// are proposed.
    pub fn as_pieces(self) -> (r: Option<Vec<Track>>)
        ensures
            pieces_view(r) == match self.poss_path {
                Some(p) => Some(self.path@ + p@),
                None => None,
            },
    {
        let mut all = self.path;
        match self.poss_path {
            Some(mut pieces) => {
                all.append(&mut pieces);
                Some(all)
            },
            None => None,
        }
    }

    /// The estimate of the cost from `from` to the point `to`: the distance
    /// along the two coordinates, in tenths of a pixel.
    pub fn estimate(from: &Connection, to: &Pos) -> (r: u64)
        ensures
            r == spec_estimate(*from, *to),
    {
        crate::path::search::estimate(from, to)
    }

    /// Proposes the pieces along the way that the search finds from the
    /// start of the next pieces to the point `to`, or nothing where no way
    /// leads there.
    pub fn add_path(&mut self, grid: &Grid, to: Pos)
        requires
            grid.wf(),
        ensures
            final(self).start == old(self).start,
            final(self).path == old(self).path,
            pieces_view(final(self).poss_path) == match spec_find_path(*grid, old(self).start, to) {
                Some(w) => Some(spec_assemble(*grid, w)),
                None => None,
            },
            final(self).poss_path is Some <==> reachable(*grid, old(self).start, to),
    {
        let way = self.find_path(grid, to);
        self.poss_path = match way {
            Some(w) => {
                proof {
                    lemma_walk_joinable(*grid, w@);
                }
                Some(assemble(grid, &w))
            },
            None => None,
        };
    }

    /// A way along edges of the graph from the start of the next pieces to
    /// a connection at the point `to`, or `None` where there is none.
    pub fn find_path(&self, grid: &Grid, to: Pos) -> (r: Option<Vec<Connection>>)
        requires
            grid.wf(),
        ensures
            way_view(r) == spec_find_path(*grid, self.start, to),
            r is Some <==> reachable(*grid, self.start, to),
            r matches Some(p) ==> is_walk(*grid, p@) && p@[0] == self.start && p@.last().pos == to,
    {
        crate::path::search::find_path(grid, self.start, to)
    }
}

} // verus!
