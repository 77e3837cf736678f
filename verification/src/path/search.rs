use crate::grid::Grid;
use crate::path::edge_cost;
use crate::path::is_edge;
use crate::path::lemma_neighbors;
use crate::path::neighbors;
use crate::path::Connection;
use crate::path::Pos;
use vstd::prelude::*;
use vstd::set_lib::lemma_int_range;
use vstd::set_lib::lemma_len_subset;
use vstd::set_lib::set_int_range;

verus! {

/// One connection that the search has met.
#[derive(Debug, Copy, Clone, PartialEq, Eq, Structural)]
pub struct Node {
    pub conn: Connection,
    /// The cost of the best way found so far from the start to here.
    pub g_score: u128,
    /// That cost plus the estimate of what is left to the goal.
    pub f_score: u128,
    /// The node before this one on that way.
    pub parent: usize,
    /// Whether the node's edges have been followed.
    pub closed: bool,
}

/// The most that one edge adds to a cost: ten times the largest length.
pub const EDGE_MAX: u128 = 21_474_836_470;

/// The estimate of the cost from `from` to the point `to`: the distance
/// along the two coordinates, in tenths of a pixel.
pub open spec fn spec_estimate(from: Connection, to: Pos) -> int {
    let dx = from.pos.0 - to.0;
    let dy = from.pos.1 - to.1;
    ((if dx >= 0 {
        dx
    } else {
        -dx
    }) + (if dy >= 0 {
        dy
    } else {
        -dy
    })) * 10
}

/// The estimate of the cost from `from` to the point `to`.
pub fn estimate(from: &Connection, to: &Pos) -> (r: u64)
    ensures
        r == spec_estimate(*from, *to),
{
    let dx: i64 = from.pos.0 as i64 - to.0 as i64;
    let dy: i64 = from.pos.1 as i64 - to.1 as i64;
    let ax: i64 = if dx >= 0 {
        dx
    } else {
        -dx
    };
    let ay: i64 = if dy >= 0 {
        dy
    } else {
        -dy
    };
    ((ax + ay) * 10) as u64
}

/// Whether the sequence leads along edges of the graph from its first
/// connection to its last.
pub open spec fn is_walk(grid: Grid, w: Seq<Connection>) -> bool {
    w.len() >= 1 && forall|i: int| 0 <= i && i + 1 < w.len() ==> #[trigger] edge_at(grid, w, i)
}

/// Whether an edge leads from the connection `i` of `w` to the next.
pub open spec fn edge_at(grid: Grid, w: Seq<Connection>, i: int) -> bool {
    is_edge(grid, w[i], w[i + 1])
}

/// Whether some way along edges leads from `start` to the point `goal`.
pub open spec fn reachable(grid: Grid, start: Connection, goal: Pos) -> bool {
    exists|w: Seq<Connection>| #[trigger] is_walk(grid, w) && w[0] == start && w.last().pos == goal
}

/// Whether the search has met the connection `c`.
pub open spec fn known(nodes: Seq<Node>, c: Connection) -> bool {
    exists|j: int| 0 <= j < nodes.len() && (#[trigger] nodes[j]).conn == c
}

/// The node `i` hangs on a closed node by an edge of the graph, and its cost
/// is that node's plus the edge's.
pub open spec fn linked(grid: Grid, nodes: Seq<Node>, i: int) -> bool {
    let p = nodes[i].parent as int;
    &&& 0 <= p < nodes.len()
    &&& nodes[p].closed
    &&& is_edge(grid, nodes[p].conn, nodes[i].conn)
    &&& nodes[i].g_score == nodes[p].g_score + 10 * edge_cost(
        grid,
        nodes[p].conn.dir,
        nodes[i].conn.dir,
    )
    &&& grid.inside(nodes[i].conn.pos.0 as int, nodes[i].conn.pos.1 as int)
    &&& nodes[i].g_score <= i * EDGE_MAX
}

/// The nodes form a tree under the first: each other node hangs on a closed
/// one, and no connection occurs twice.
pub open spec fn tree(grid: Grid, nodes: Seq<Node>) -> bool {
    &&& nodes.len() >= 1
    &&& nodes[0].g_score == 0
    &&& forall|i: int| 1 <= i < nodes.len() ==> #[trigger] linked(grid, nodes, i)
    &&& forall|i: int, j: int|
        0 <= i < j < nodes.len() ==> (#[trigger] nodes[i]).conn != (#[trigger] nodes[j]).conn
}

/// The node `i` is not at the goal, and the search has met every connection
/// that its edges lead to.
pub open spec fn settled(grid: Grid, goal: Pos, nodes: Seq<Node>, i: int) -> bool {
    &&& nodes[i].conn.pos != goal
    &&& forall|k: int|
        0 <= k < neighbors(grid, nodes[i].conn).len() ==> known(
            nodes,
            (#[trigger] neighbors(grid, nodes[i].conn)[k]).0,
        )
}

/// Every closed node but `pending` is settled.
pub open spec fn explored(grid: Grid, goal: Pos, nodes: Seq<Node>, pending: int) -> bool {
    forall|i: int|
        0 <= i < nodes.len() && (#[trigger] nodes[i]).closed && i != pending ==> settled(
            grid,
            goal,
            nodes,
            i,
        )
}

/// Whether `b` holds the connections of `a` at the same places, closed
/// where they were closed, and perhaps more after them.
pub open spec fn extends(a: Seq<Node>, b: Seq<Node>) -> bool {
    &&& a.len() <= b.len()
    &&& forall|i: int|
        0 <= i < a.len() ==> (#[trigger] b[i]).conn == a[i].conn && b[i].closed == a[i].closed
}

/// The place of the connection `c` among the nodes, where it has one.
pub open spec fn index_of(nodes: Seq<Node>, c: Connection) -> Option<int> {
    if known(nodes, c) {
        Some(choose|j: int| 0 <= j < nodes.len() && (#[trigger] nodes[j]).conn == c)
    } else {
        None
    }
}

/// The open node with the least total among the first `n` nodes, and of
/// several such the first.
pub open spec fn pick_among(nodes: Seq<Node>, n: int) -> Option<int>
    decreases n,
{
    if n <= 0 {
        None
    } else {
        let before = pick_among(nodes, n - 1);
        if nodes[n - 1].closed {
            before
        } else {
            match before {
                None => Some(n - 1),
                Some(b) => if nodes[n - 1].f_score < nodes[b].f_score {
                    Some(n - 1)
                } else {
                    before
                },
            }
        }
    }
}

/// What the pick among the first `n` nodes is: an open node among them, or
/// none where all of them are closed.
pub proof fn lemma_pick(nodes: Seq<Node>, n: int)
    requires
        0 <= n <= nodes.len(),
    ensures
        match pick_among(nodes, n) {
            Some(t) => 0 <= t < n && !nodes[t].closed,
            None => forall|i: int| 0 <= i < n ==> (#[trigger] nodes[i]).closed,
        },
    decreases n,
{
    if n > 0 {
        lemma_pick(nodes, n - 1);
    }
}

/// The open node with the least total, and of several such the first.
pub fn pick(nodes: &Vec<Node>) -> (r: Option<usize>)
    ensures
        match r {
            Some(t) => pick_among(nodes@, nodes@.len() as int) == Some(t as int) && t < nodes@.len()
                && !nodes@[t as int].closed,
            None => pick_among(nodes@, nodes@.len() as int) is None && forall|i: int|
                0 <= i < nodes@.len() ==> (#[trigger] nodes@[i]).closed,
        },
{
    let mut best: Option<usize> = None;
    let mut i: usize = 0;
    while i < nodes.len()
        invariant
            0 <= i <= nodes.len(),
            match best {
                Some(t) => pick_among(nodes@, i as int) == Some(t as int) && t < i,
                None => pick_among(nodes@, i as int) is None,
            },
        decreases nodes.len() - i,
    {
        if !nodes[i].closed {
            match best {
                None => {
                    best = Some(i);
                },
                Some(b) => {
                    if nodes[i].f_score < nodes[b].f_score {
                        best = Some(i);
                    }
                },
            }
        }
        i += 1;
    }
    proof {
        lemma_pick(nodes@, nodes@.len() as int);
    }
    best
}

/// The place of the connection `c` among the nodes, where it has one.
pub fn find_node(nodes: &Vec<Node>, c: Connection) -> (r: Option<usize>)
    requires
        forall|i: int, j: int|
            0 <= i < j < nodes@.len() ==> (#[trigger] nodes@[i]).conn != (#[trigger] nodes@[j]).conn,
    ensures
        match r {
            Some(i) => index_of(nodes@, c) == Some(i as int) && i < nodes@.len() && nodes@[i as int].conn
                == c,
            None => index_of(nodes@, c) is None && !known(nodes@, c),
        },
{
    let mut i: usize = 0;
    while i < nodes.len()
        invariant
            0 <= i <= nodes.len(),
            forall|j: int| 0 <= j < i ==> (#[trigger] nodes@[j]).conn != c,
            forall|a: int, b: int|
                0 <= a < b < nodes@.len() ==> (#[trigger] nodes@[a]).conn != (#[trigger] nodes@[b]).conn,
        decreases nodes.len() - i,
    {
        if nodes[i].conn == c {
            proof {
                assert(nodes@[i as int].conn == c);
                assert(known(nodes@, c));
                let j = choose|j: int| 0 <= j < nodes@.len() && (#[trigger] nodes@[j]).conn == c;
                if j < i {
                    assert(nodes@[j].conn != nodes@[i as int].conn);
                }
                if i < j {
                    assert(nodes@[i as int].conn != nodes@[j].conn);
                }
            }
            return Some(i);
        }
        i += 1;
    }
    None
}

/// The nodes after the edge `edge` out of the closed node `target` has been
/// followed: a connection met for the first time becomes a new open node
/// under `target`; an open node that the edge reaches more cheaply than
/// before moves under `target`; nothing else changes.
pub open spec fn spec_relax(nodes: Seq<Node>, target: int, edge: (Connection, i32), goal: Pos) -> Seq<
    Node,
> {
    let g = nodes[target].g_score + 10 * edge.1;
    let fresh = Node {
        conn: edge.0,
        g_score: g as u128,
        f_score: (g + spec_estimate(edge.0, goal)) as u128,
        parent: target as usize,
        closed: false,
    };
    match index_of(nodes, edge.0) {
        Some(i) => if !nodes[i].closed && g < nodes[i].g_score {
            nodes.update(i, fresh)
        } else {
            nodes
        },
        None => nodes.push(fresh),
    }
}

/// Whether `edge` is one of the edges that leave `c`.
pub open spec fn leaves(grid: Grid, c: Connection, edge: (Connection, i32)) -> bool {
    exists|k: int| 0 <= k < neighbors(grid, c).len() && #[trigger] neighbors(grid, c)[k] == edge
}

/// Follows the edge `edge` out of the closed node `target`.
pub fn relax(grid: &Grid, nodes: &mut Vec<Node>, target: usize, edge: (Connection, i32), goal: Pos)
    requires
        grid.wf(),
        tree(*grid, old(nodes)@),
        target < old(nodes)@.len(),
        old(nodes)@[target as int].closed,
        leaves(*grid, old(nodes)@[target as int].conn, edge),
    ensures
        final(nodes)@ == spec_relax(old(nodes)@, target as int, edge, goal),
        tree(*grid, final(nodes)@),
        extends(old(nodes)@, final(nodes)@),
        known(final(nodes)@, edge.0),
        final(nodes)@[target as int] == old(nodes)@[target as int],
{
    let ghost before = nodes@;
    let from = nodes[target];
    proof {
        lemma_neighbors(*grid, from.conn);
        let k = choose|k: int|
            0 <= k < neighbors(*grid, from.conn).len() && #[trigger] neighbors(*grid, from.conn)[k]
                == edge;
        assert(neighbors(*grid, from.conn)[k].0 == edge.0);
        assert(is_edge(*grid, from.conn, edge.0));
        if target > 0 {
            assert(linked(*grid, before, target as int));
        }
        assert(from.g_score <= target * EDGE_MAX);
    }
    let total: u128 = from.g_score + 10 * (edge.1 as u128);
    let h: u64 = estimate(&edge.0, &goal);
    let fresh = Node { conn: edge.0, g_score: total, f_score: total + h as u128, parent: target, closed: false };
    match find_node(nodes, edge.0) {
        Some(i) => {
            let seen = nodes[i];
            if !seen.closed && total < seen.g_score {
                nodes.set(i, fresh);
                proof {
                    let after = nodes@;
                    assert(i != 0);
                    assert(linked(*grid, before, i as int));
                    assert forall|m: int| 1 <= m < after.len() implies #[trigger] linked(
                        *grid,
                        after,
                        m,
                    ) by {
                        assert(linked(*grid, before, m));
                    }
                    assert(after[i as int].conn == edge.0);
                }
            } else {
                proof {
                    assert(nodes@[i as int].conn == edge.0);
                }
            }
        },
        None => {
            nodes.push(fresh);
            proof {
                let after = nodes@;
                assert forall|m: int| 1 <= m < after.len() implies #[trigger] linked(
                    *grid,
                    after,
                    m,
                ) by {
                    if m < before.len() {
                        assert(linked(*grid, before, m));
                    }
                }
                assert forall|a: int, b: int| 0 <= a < b < after.len() implies (#[trigger] after[a]).conn
                    != (#[trigger] after[b]).conn by {
                    if b == before.len() {
                        assert(before[a].conn != edge.0);
                    }
                }
                assert(after[before.len() as int].conn == edge.0);
            }
        },
    }
}

/// The nodes after the edges `edges` out of the closed node `target` have
/// been followed one after the other.
pub open spec fn spec_expand(nodes: Seq<Node>, target: int, edges: Seq<(Connection, i32)>, goal: Pos) -> Seq<
    Node,
>
    decreases edges.len(),
{
    if edges.len() == 0 {
        nodes
    } else {
        spec_relax(spec_expand(nodes, target, edges.drop_last(), goal), target, edges.last(), goal)
    }
}

/// A connection that was met stays met when nodes are added or moved.
pub proof fn lemma_known_extends(a: Seq<Node>, b: Seq<Node>, c: Connection)
    requires
        extends(a, b),
        known(a, c),
    ensures
        known(b, c),
{
    let j = choose|j: int| 0 <= j < a.len() && (#[trigger] a[j]).conn == c;
    assert(b[j].conn == c);
}

/// A settled node stays settled when nodes are added or moved.
pub proof fn lemma_settled_extends(grid: Grid, goal: Pos, a: Seq<Node>, b: Seq<Node>, i: int)
    requires
        extends(a, b),
        0 <= i < a.len(),
        settled(grid, goal, a, i),
    ensures
        settled(grid, goal, b, i),
{
    assert(b[i].conn == a[i].conn);
    assert forall|k: int| 0 <= k < neighbors(grid, b[i].conn).len() implies known(
        b,
        (#[trigger] neighbors(grid, b[i].conn)[k]).0,
    ) by {
        lemma_known_extends(a, b, neighbors(grid, a[i].conn)[k].0);
    }
}

/// Follows every edge out of the closed node `target`, in the order in
/// which the graph gives them.
pub fn expand(grid: &Grid, nodes: &mut Vec<Node>, target: usize, goal: Pos)
    requires
        grid.wf(),
        tree(*grid, old(nodes)@),
        target < old(nodes)@.len(),
        old(nodes)@[target as int].closed,
    ensures
        final(nodes)@ == spec_expand(
            old(nodes)@,
            target as int,
            neighbors(*grid, old(nodes)@[target as int].conn),
            goal,
        ),
        tree(*grid, final(nodes)@),
        extends(old(nodes)@, final(nodes)@),
        final(nodes)@[target as int] == old(nodes)@[target as int],
        forall|k: int|
            0 <= k < neighbors(*grid, old(nodes)@[target as int].conn).len() ==> known(
                final(nodes)@,
                (#[trigger] neighbors(*grid, old(nodes)@[target as int].conn)[k]).0,
            ),
{
    let ghost before = nodes@;
    let from = nodes[target].conn;
    let edges = from.gen_connections(grid);
    let mut k: usize = 0;
    while k < edges.len()
        invariant
            grid.wf(),
            0 <= k <= edges.len(),
            edges@ == neighbors(*grid, from),
            target < before.len(),
            before[target as int].conn == from,
            before[target as int].closed,
            nodes@ == spec_expand(before, target as int, edges@.take(k as int), goal),
            tree(*grid, nodes@),
            extends(before, nodes@),
            nodes@[target as int] == before[target as int],
            forall|m: int| 0 <= m < k ==> known(nodes@, (#[trigger] edges@[m]).0),
        decreases edges.len() - k,
    {
        let ghost mid = nodes@;
        let edge = edges[k];
        proof {
            assert(neighbors(*grid, from)[k as int] == edge);
            assert(edges@.take(k as int + 1).drop_last() =~= edges@.take(k as int));
            assert(edges@.take(k as int + 1).last() == edge);
        }
        relax(grid, nodes, target, edge, goal);
        proof {
            assert forall|m: int| 0 <= m < k + 1 implies known(nodes@, (#[trigger] edges@[m]).0) by {
                if m < k {
                    lemma_known_extends(mid, nodes@, edges@[m].0);
                }
            }
            assert(extends(before, nodes@)) by {
                assert forall|i: int| 0 <= i < before.len() implies (#[trigger] nodes@[i]).conn
                    == before[i].conn && nodes@[i].closed == before[i].closed by {
                    assert(mid[i].conn == before[i].conn);
                }
            }
        }
        k += 1;
    }
    proof {
        assert(edges@.take(edges@.len() as int) =~= edges@);
    }
}

/// The way from the first node to the node `i`, along the parents.
pub open spec fn chain(nodes: Seq<Node>, i: int) -> Seq<Connection>
    decreases nodes[i].g_score,
{
    let p = nodes[i].parent as int;
    if 0 < i < nodes.len() && 0 <= p < nodes.len() && nodes[p].g_score < nodes[i].g_score {
        chain(nodes, p).push(nodes[i].conn)
    } else {
        seq![nodes[i].conn]
    }
}

/// The way to a node is a walk of the graph from the first node's
/// connection to the node's own.
pub proof fn lemma_chain_walk(grid: Grid, nodes: Seq<Node>, i: int)
    requires
        grid.wf(),
        tree(grid, nodes),
        0 <= i < nodes.len(),
    ensures
        is_walk(grid, chain(nodes, i)),
        chain(nodes, i)[0] == nodes[0].conn,
        chain(nodes, i).last() == nodes[i].conn,
    decreases nodes[i].g_score,
{
    if i > 0 {
        assert(linked(grid, nodes, i));
        let p = nodes[i].parent as int;
        lemma_chain_walk(grid, nodes, p);
        let front = chain(nodes, p);
        let w = chain(nodes, i);
        assert(w == front.push(nodes[i].conn));
        assert forall|m: int| 0 <= m && m + 1 < w.len() implies #[trigger] edge_at(grid, w, m) by {
            if m + 1 < front.len() {
                assert(edge_at(grid, front, m));
            }
        }
    }
}

/// The way from the first node to the node `t`, along the parents.
pub fn trace(grid: &Grid, nodes: &Vec<Node>, t: usize) -> (r: Vec<Connection>)
    requires
        grid.wf(),
        tree(*grid, nodes@),
        t < nodes@.len(),
    ensures
        r@ == chain(nodes@, t as int),
{
    let mut back: Vec<Connection> = Vec::new();
    let mut cur: usize = t;
    let ghost mut tail: Seq<Connection> = Seq::empty();
    while cur != 0
        invariant
            grid.wf(),
            tree(*grid, nodes@),
            cur < nodes@.len(),
            chain(nodes@, t as int) == chain(nodes@, cur as int) + tail,
            tail.len() == back@.len(),
            forall|m: int| 0 <= m < tail.len() ==> tail[m] == back@[back@.len() - 1 - m],
        decreases nodes@[cur as int].g_score,
    {
        proof {
            assert(linked(*grid, nodes@, cur as int));
            let p = nodes@[cur as int].parent as int;
            assert(chain(nodes@, cur as int) == chain(nodes@, p).push(nodes@[cur as int].conn));
            assert(chain(nodes@, p).push(nodes@[cur as int].conn) + tail =~= chain(nodes@, p) + (
            seq![nodes@[cur as int].conn] + tail));
            tail = seq![nodes@[cur as int].conn] + tail;
        }
        back.push(nodes[cur].conn);
        cur = nodes[cur].parent;
    }
    proof {
        assert(chain(nodes@, 0) == seq![nodes@[0].conn]);
        assert(seq![nodes@[0].conn] + tail =~= (seq![nodes@[0].conn] + tail));
        tail = seq![nodes@[0].conn] + tail;
    }
    back.push(nodes[0].conn);
    let mut out: Vec<Connection> = Vec::new();
    let mut i: usize = back.len();
    while i > 0
        invariant
            0 <= i <= back@.len(),
            tail.len() == back@.len(),
            forall|m: int| 0 <= m < tail.len() ==> tail[m] == back@[back@.len() - 1 - m],
            out@.len() == back@.len() - i,
            forall|m: int| 0 <= m < out@.len() ==> out@[m] == tail[m],
        decreases i,
    {
        i -= 1;
        out.push(back[i]);
    }
    assert(out@ =~= tail);
    out
}

/// The number of connections inside the canvas, and one more: no search
/// meets more connections than that.
pub open spec fn node_bound(grid: Grid) -> nat {
    let w = grid.max.0 - grid.min.0 - 1;
    let h = grid.max.1 - grid.min.1 - 1;
    if w > 0 && h > 0 {
        (8 * w * h + 1) as nat
    } else {
        1
    }
}

/// A number for each connection: nought outside the canvas, and inside it
/// a number of its own.
pub open spec fn code(grid: Grid, c: Connection) -> int {
    let h = grid.max.1 - grid.min.1 - 1;
    if grid.inside(c.pos.0 as int, c.pos.1 as int) {
        1 + ((c.pos.0 - grid.min.0 - 1) * h + (c.pos.1 - grid.min.1 - 1)) * 8 + c.dir.index()
    } else {
        0
    }
}

/// The number of a connection is below the bound.
pub proof fn lemma_code_range(grid: Grid, c: Connection)
    ensures
        0 <= code(grid, c) < node_bound(grid),
{
    if grid.inside(c.pos.0 as int, c.pos.1 as int) {
        let w = grid.max.0 - grid.min.0 - 1;
        let h = grid.max.1 - grid.min.1 - 1;
        let x = c.pos.0 - grid.min.0 - 1;
        let y = c.pos.1 - grid.min.1 - 1;
        assert(0 <= x * h + y < w * h) by (nonlinear_arith)
            requires
                0 <= x < w,
                0 <= y < h,
        ;
        assert(8 * w * h == 8 * (w * h)) by (nonlinear_arith);
    }
}

/// Two connections inside the canvas with one number are one connection.
pub proof fn lemma_code_injective(grid: Grid, a: Connection, b: Connection)
    requires
        grid.inside(a.pos.0 as int, a.pos.1 as int),
        grid.inside(b.pos.0 as int, b.pos.1 as int),
        code(grid, a) == code(grid, b),
    ensures
        a == b,
{
    let h = grid.max.1 - grid.min.1 - 1;
    let xa = a.pos.0 - grid.min.0 - 1;
    let ya = a.pos.1 - grid.min.1 - 1;
    let xb = b.pos.0 - grid.min.0 - 1;
    let yb = b.pos.1 - grid.min.1 - 1;
    assert(xa * h + ya == xb * h + yb);
    assert(a.dir.index() == b.dir.index());
    assert(xa == xb) by (nonlinear_arith)
        requires
            xa * h + ya == xb * h + yb,
            0 <= ya < h,
            0 <= yb < h,
    ;
}

/// No more than `n` different numbers lie from nought up to `n`.
pub proof fn lemma_distinct_len(s: Seq<int>, n: int)
    requires
        0 <= n,
        s.no_duplicates(),
        forall|m: int| 0 <= m < s.len() ==> 0 <= #[trigger] s[m] < n,
    ensures
        s.len() <= n,
{
    if s.len() > 0 {
        assert(0 <= s[0] < n);
        s.unique_seq_to_set();
        lemma_int_range(0, n);
        assert(s.to_set().subset_of(set_int_range(0, n))) by {
            assert forall|v: int| s.to_set().contains(v) implies set_int_range(0, n).contains(v) by {
                let m = choose|m: int| 0 <= m < s.len() && s[m] == v;
                assert(0 <= s[m] < n);
            }
        }
        lemma_len_subset(s.to_set(), set_int_range(0, n));
    }
}

/// A tree of nodes has no more nodes than the bound.
pub proof fn lemma_node_bound(grid: Grid, nodes: Seq<Node>)
    requires
        tree(grid, nodes),
    ensures
        nodes.len() <= node_bound(grid),
{
    let codes = Seq::new(nodes.len(), |i: int| code(grid, nodes[i].conn));
    assert forall|i: int, j: int| 0 <= i < codes.len() && 0 <= j < codes.len() && i != j implies codes[i]
        != codes[j] by {
        let (a, b) = if i < j {
            (i, j)
        } else {
            (j, i)
        };
        assert(nodes[a].conn != nodes[b].conn);
        assert(linked(grid, nodes, b));
        if a > 0 {
            assert(linked(grid, nodes, a));
            if codes[i] == codes[j] {
                lemma_code_injective(grid, nodes[a].conn, nodes[b].conn);
            }
        } else if grid.inside(nodes[a].conn.pos.0 as int, nodes[a].conn.pos.1 as int) {
            if codes[i] == codes[j] {
                lemma_code_injective(grid, nodes[a].conn, nodes[b].conn);
            }
        }
    }
    assert forall|m: int| 0 <= m < codes.len() implies 0 <= #[trigger] codes[m] < node_bound(grid) by {
        lemma_code_range(grid, nodes[m].conn);
    }
    lemma_distinct_len(codes, node_bound(grid) as int);
}

/// Every connection of a walk from the first node's connection has been
/// met, once every node is closed and settled.
pub proof fn lemma_walk_known(grid: Grid, goal: Pos, nodes: Seq<Node>, w: Seq<Connection>, m: int)
    requires
        nodes.len() >= 1,
        explored(grid, goal, nodes, -1),
        forall|i: int| 0 <= i < nodes.len() ==> (#[trigger] nodes[i]).closed,
        is_walk(grid, w),
        w[0] == nodes[0].conn,
        0 <= m < w.len(),
    ensures
        known(nodes, w[m]),
    decreases m,
{
    if m == 0 {
        assert(nodes[0].conn == w[0]);
    } else {
        lemma_walk_known(grid, goal, nodes, w, m - 1);
        let j = choose|j: int| 0 <= j < nodes.len() && (#[trigger] nodes[j]).conn == w[m - 1];
        assert(nodes[j].closed);
        assert(settled(grid, goal, nodes, j));
        assert(edge_at(grid, w, m - 1));
        let k = choose|k: int|
            0 <= k < neighbors(grid, w[m - 1]).len() && (#[trigger] neighbors(grid, w[m - 1])[k]).0
                == w[m];
        assert(known(nodes, neighbors(grid, nodes[j].conn)[k].0));
    }
}

/// No walk leads from the first node's connection to the goal, once every
/// node is closed and settled.
pub proof fn lemma_unreachable(grid: Grid, goal: Pos, nodes: Seq<Node>)
    requires
        nodes.len() >= 1,
        explored(grid, goal, nodes, -1),
        forall|i: int| 0 <= i < nodes.len() ==> (#[trigger] nodes[i]).closed,
    ensures
        !reachable(grid, nodes[0].conn, goal),
{
    assert forall|w: Seq<Connection>| #[trigger]
        is_walk(grid, w) && w[0] == nodes[0].conn implies w.last().pos != goal by {
        lemma_walk_known(grid, goal, nodes, w, w.len() - 1);
        let j = choose|j: int| 0 <= j < nodes.len() && (#[trigger] nodes[j]).conn == w.last();
        assert(nodes[j].closed);
        assert(settled(grid, goal, nodes, j));
    }
}

/// The node `n` with its edges marked as followed.
pub open spec fn spec_close(n: Node) -> Node {
    Node { conn: n.conn, g_score: n.g_score, f_score: n.f_score, parent: n.parent, closed: true }
}

/// What the search returns from the nodes `nodes` within `fuel` rounds. A
/// round picks the open node with the least total. Where there is none, no
/// way exists. Where the node picked is at the goal, the way to it is the
/// result. Otherwise the node is closed and its edges are followed.
pub open spec fn spec_search(grid: Grid, goal: Pos, nodes: Seq<Node>, fuel: nat) -> Option<
    Seq<Connection>,
>
    decreases fuel,
{
    if fuel == 0 {
        None
    } else {
        match pick_among(nodes, nodes.len() as int) {
            None => None,
            Some(t) => if nodes[t].conn.pos == goal {
                Some(chain(nodes, t))
            } else {
                spec_search(
                    grid,
                    goal,
                    spec_expand(
                        nodes.update(t, spec_close(nodes[t])),
                        t,
                        neighbors(grid, nodes[t].conn),
                        goal,
                    ),
                    (fuel - 1) as nat,
                )
            },
        }
    }
}

/// The way that the search finds from `start` to the point `goal`, where
/// there is one.
pub open spec fn spec_find_path(grid: Grid, start: Connection, goal: Pos) -> Option<Seq<Connection>> {
    spec_search(
        grid,
        goal,
        seq![
            Node {
                conn: start,
                g_score: 0,
                f_score: spec_estimate(start, goal) as u128,
                parent: 0,
                closed: false,
            },
        ],
        node_bound(grid),
    )
}

/// The view of a way that may be missing.
pub open spec fn way_view(r: Option<Vec<Connection>>) -> Option<Seq<Connection>> {
    match r {
        Some(p) => Some(p@),
        None => None,
    }
}

/// A way along edges of the graph from `start` to a connection at the
/// point `goal`, with whatever direction it is reached; `None` where no
/// such way exists inside the canvas. The search is best-first: it follows
/// the connection whose cost so far plus estimate is least, and of several
/// such the one it met first.
pub fn find_path(grid: &Grid, start: Connection, goal: Pos) -> (r: Option<Vec<Connection>>)
    requires
        grid.wf(),
    ensures
        way_view(r) == spec_find_path(*grid, start, goal),
        r is Some <==> reachable(*grid, start, goal),
        r matches Some(p) ==> is_walk(*grid, p@) && p@[0] == start && p@.last().pos == goal,
{
    let mut nodes: Vec<Node> = Vec::new();
    let h: u64 = estimate(&start, &goal);
    nodes.push(Node { conn: start, g_score: 0, f_score: h as u128, parent: 0, closed: false });
    let ghost mut order: Seq<int> = Seq::empty();
    let ghost mut fuel: nat = node_bound(*grid);
    proof {
        assert(nodes@ =~= seq![
            Node {
                conn: start,
                g_score: 0,
                f_score: spec_estimate(start, goal) as u128,
                parent: 0,
                closed: false,
            },
        ]);
    }
    loop
        invariant
            grid.wf(),
            nodes@.len() >= 1,
            nodes@[0].conn == start,
            tree(*grid, nodes@),
            explored(*grid, goal, nodes@, -1),
            order.no_duplicates(),
            forall|m: int|
                0 <= m < order.len() ==> 0 <= #[trigger] order[m] < nodes@.len() && nodes@[order[m]].closed,
            fuel + order.len() == node_bound(*grid),
            spec_find_path(*grid, start, goal) == spec_search(*grid, goal, nodes@, fuel),
        decreases fuel,
    {
        let ghost before = nodes@;
        let t = match pick(&nodes) {
            None => {
                proof {
                    lemma_unreachable(*grid, goal, nodes@);
                }
                return None;
            },
            Some(t) => t,
        };
        proof {
            lemma_node_bound(*grid, before);
            let longer = order.push(t as int);
            assert(longer.no_duplicates()) by {
                assert forall|a: int, b: int|
                    0 <= a < longer.len() && 0 <= b < longer.len() && a != b implies longer[a]
                    != longer[b] by {
                    if a < order.len() {
                        assert(before[order[a]].closed);
                    }
                    if b < order.len() {
                        assert(before[order[b]].closed);
                    }
                }
            }
            lemma_distinct_len(longer, before.len() as int);
            assert(fuel > 0);
        }
        let node = nodes[t];
        if node.conn.pos == goal {
            let p = trace(grid, &nodes, t);
            proof {
                lemma_chain_walk(*grid, nodes@, t as int);
                assert(is_walk(*grid, p@) && p@[0] == start && p@.last().pos == goal);
            }
            return Some(p);
        }
        nodes.set(
            t,
            Node {
                conn: node.conn,
                g_score: node.g_score,
                f_score: node.f_score,
                parent: node.parent,
                closed: true,
            },
        );
        let ghost shut = nodes@;
        proof {
            assert(shut == before.update(t as int, spec_close(before[t as int])));
            assert(extends_open(before, shut, t as int));
            assert forall|i: int| 1 <= i < shut.len() implies #[trigger] linked(*grid, shut, i) by {
                assert(linked(*grid, before, i));
            }
            assert(tree(*grid, shut));
        }
        expand(grid, &mut nodes, t, goal);
        proof {
            let after = nodes@;
            assert forall|i: int| 0 <= i < after.len() && (#[trigger] after[i]).closed implies settled(
                *grid,
                goal,
                after,
                i,
            ) by {
                if i == t {
                    assert(after[i].conn == node.conn);
                } else {
                    assert(i < shut.len()) by {
                        if i >= shut.len() {
                            lemma_expand_open(*grid, shut, t as int, neighbors(*grid, node.conn), goal, i);
                        }
                    }
                    assert(shut[i].closed == after[i].closed);
                    assert(before[i].closed);
                    assert(settled(*grid, goal, before, i));
                    lemma_settled_open(*grid, goal, before, shut, t as int, i);
                    lemma_settled_extends(*grid, goal, shut, after, i);
                }
            }
            order = order.push(t as int);
            fuel = (fuel - 1) as nat;
            assert forall|m: int| 0 <= m < order.len() implies 0 <= #[trigger] order[m] < after.len()
                && after[order[m]].closed by {
                if m < order.len() - 1 {
                    assert(before[order[m]].closed);
                    assert(after[order[m]].closed == shut[order[m]].closed);
                }
            }
        }
    }
}

/// Whether `b` is `a` with the node `t` closed and nothing else changed.
pub open spec fn extends_open(a: Seq<Node>, b: Seq<Node>, t: int) -> bool {
    &&& a.len() == b.len()
    &&& 0 <= t < a.len()
    &&& b[t] == spec_close(a[t])
    &&& forall|i: int| 0 <= i < a.len() && i != t ==> #[trigger] b[i] == a[i]
}

/// A settled node stays settled when another node is closed.
pub proof fn lemma_settled_open(grid: Grid, goal: Pos, a: Seq<Node>, b: Seq<Node>, t: int, i: int)
    requires
        extends_open(a, b, t),
        0 <= i < a.len(),
        settled(grid, goal, a, i),
    ensures
        settled(grid, goal, b, i),
{
    assert(b[i].conn == a[i].conn);
    assert forall|k: int| 0 <= k < neighbors(grid, b[i].conn).len() implies known(
        b,
        (#[trigger] neighbors(grid, b[i].conn)[k]).0,
    ) by {
        let c = neighbors(grid, a[i].conn)[k].0;
        let j = choose|j: int| 0 <= j < a.len() && (#[trigger] a[j]).conn == c;
        assert(b[j].conn == c);
    }
}

/// Every node that following edges adds is open.
pub proof fn lemma_expand_open(
    grid: Grid,
    nodes: Seq<Node>,
    target: int,
    edges: Seq<(Connection, i32)>,
    goal: Pos,
    i: int,
)
    requires
        nodes.len() <= i < spec_expand(nodes, target, edges, goal).len(),
    ensures
        !spec_expand(nodes, target, edges, goal)[i].closed,
    decreases edges.len(),
{
    if edges.len() > 0 {
        let mid = spec_expand(nodes, target, edges.drop_last(), goal);
        if i < mid.len() {
            lemma_expand_open(grid, nodes, target, edges.drop_last(), goal, i);
        }
    }
}

} // verus!
