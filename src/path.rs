use vstd::prelude::*;

use crate::grid::{grid_wf, in_grid, neighbor_if_walkable, walkable_at, walkable_neighbors_of, GridError, LevelGrid};
use crate::tile::Tile;

verus! {

/// Whether `a` and `b` are one step apart along an axis.
pub open spec fn adjacent(a: (i32, i32), b: (i32, i32)) -> bool {
    ||| (a.0 == b.0 && (a.1 - b.1 == 1 || b.1 - a.1 == 1))
    ||| (a.1 == b.1 && (a.0 - b.0 == 1 || b.0 - a.0 == 1))
}

/// Whether an actor can move from `a` to `b`: `b` is a walkable direct neighbour of `a`.
pub open spec fn is_step(g: Seq<Seq<Tile>>, a: (i32, i32), b: (i32, i32)) -> bool {
    walkable_neighbors_of(g, a.0 as int, a.1 as int).contains(b)
}

/// Whether `w` leads on `g` from `start` to `destination`, one step at a time.
pub open spec fn is_walk(g: Seq<Seq<Tile>>, w: Seq<(i32, i32)>, start: (i32, i32), destination: (i32, i32)) -> bool {
    &&& w.len() > 0
    &&& w[0] == start
    &&& w.last() == destination
    &&& forall|i: int| 0 <= i < w.len() - 1 ==> #[trigger] is_step(g, w[i], w[i + 1])
}

/// Whether some walk leads on `g` from `start` to `destination`.
pub open spec fn reachable(g: Seq<Seq<Tile>>, start: (i32, i32), destination: (i32, i32)) -> bool {
    exists|w: Seq<(i32, i32)>| is_walk(g, w, start, destination)
}

/// Whether `p` is a shortest walk from `start` to `destination` that visits no cell twice.
pub open spec fn is_shortest_walk(g: Seq<Seq<Tile>>, p: Seq<(i32, i32)>, start: (i32, i32), destination: (i32, i32)) -> bool {
    &&& is_walk(g, p, start, destination)
    &&& p.no_duplicates()
    &&& forall|w: Seq<(i32, i32)>| #[trigger] is_walk(g, w, start, destination) ==> p.len() <= w.len()
}

/// What a breadth-first search from `start` to `destination` over walkable
/// direct neighbours yields: a shortest walk, or `None` when there is none.
pub open spec fn search_outcome(g: Seq<Seq<Tile>>, start: (i32, i32), destination: (i32, i32), r: Option<Seq<(i32, i32)>>) -> bool {
    match r {
        Some(p) => is_shortest_walk(g, p, start, destination),
        None => !reachable(g, start, destination),
    }
}

/// What `find_path` returns: an out-of-bounds error when either end lies
/// outside the grid, otherwise the outcome of the search.
pub open spec fn path_outcome(
    g: Seq<Seq<Tile>>,
    start: (i32, i32),
    destination: (i32, i32),
    r: Result<Option<Seq<(i32, i32)>>, GridError>,
) -> bool {
    if in_grid(g, start.0 as int, start.1 as int) && in_grid(g, destination.0 as int, destination.1 as int) {
        r is Ok && search_outcome(g, start, destination, r->Ok_0)
    } else {
        r == Err::<Option<Seq<(i32, i32)>>, GridError>(GridError::OutOfBounds)
    }
}

/// An ordered list of cells for an actor to walk along, consumed from the front.
pub struct Path {
    pub path: Vec<(i32, i32)>,
}

impl View for Path {
    type V = Seq<(i32, i32)>;

    open spec fn view(&self) -> Seq<(i32, i32)> {
        self.path@
    }
}

impl Path {
    /// The next cell to walk to, if any is left.
    pub fn next_waypoint(&self) -> (r: Option<(i32, i32)>)
        ensures
            r == (if self@.len() > 0 { Some(self@[0]) } else { None::<(i32, i32)> }),
    {
        if self.path.len() > 0 {
            Some(self.path[0])
        } else {
            None
        }
    }

    /// Drops the next cell once the actor has reached it.
    pub fn reach_waypoint(&mut self)
        ensures
            final(self)@ == (if old(self)@.len() > 0 { old(self)@.drop_first() } else { old(self)@ }),
    {
        if self.path.len() > 0 {
            self.path.remove(0);
        }
    }

    /// Whether every cell has been reached.
    pub fn is_empty(&self) -> (r: bool)
        ensures
            r == (self@.len() == 0),
    {
        self.path.len() == 0
    }
}

/// The found path, if any, as a sequence of cells.
pub open spec fn found_view(r: Result<Option<Path>, GridError>) -> Result<Option<Seq<(i32, i32)>>, GridError> {
    match r {
        Ok(Some(p)) => Ok(Some(p@)),
        Ok(None) => Ok(None),
        Err(e) => Err(e),
    }
}

/// The search result as a sequence of cells.
pub open spec fn option_view(r: Option<Vec<(i32, i32)>>) -> Option<Seq<(i32, i32)>> {
    match r {
        Some(v) => Some(v@),
        None => None,
    }
}

/// Whether the search has reached `destination`.
fn is_destination(p: &(i32, i32), destination: (i32, i32)) -> (r: bool)
    ensures
        r == (*p == destination),
{
    p.0 == destination.0 && p.1 == destination.1
}

/// Relies on `pathfinding::directed::bfs::bfs`: it returns a shortest path
/// from `start` to a node accepted by the success test, following the
/// successor function, with both ends included and no node twice; `None` when
/// no such path exists. Successors are `walkable_neighbors`, the success test
/// is `is_destination`.
#[verifier::external_body]
fn breadth_first_search(grid: &LevelGrid, start: (i32, i32), destination: (i32, i32)) -> (r: Option<Vec<(i32, i32)>>)
    ensures
        search_outcome(grid@, start, destination, option_view(r)),
{
    pathfinding::directed::bfs::bfs(
        &start,
        |p: &(i32, i32)| grid.walkable_neighbors(p.0, p.1),
        |p: &(i32, i32)| is_destination(p, destination),
    )
}

/// A step leads to an adjacent cell that can be walked on.
proof fn lemma_step_shape(g: Seq<Seq<Tile>>, a: (i32, i32), b: (i32, i32))
    requires
        grid_wf(g),
        is_step(g, a, b),
    ensures
        adjacent(a, b),
        walkable_at(g, b.0 as int, b.1 as int),
{
    let x = a.0 as int;
    let y = a.1 as int;
    let s1 = neighbor_if_walkable(g, x, y, 0, 1);
    let s2 = neighbor_if_walkable(g, x, y, 0, -1);
    let s3 = neighbor_if_walkable(g, x, y, 1, 0);
    let s4 = neighbor_if_walkable(g, x, y, -1, 0);
    let s = walkable_neighbors_of(g, x, y);
    let i = choose|i: int| 0 <= i < s.len() && s[i] == b;
    if walkable_at(g, x, y + 1) {
        assert(g[x].len() <= i32::MAX);
    }
    if walkable_at(g, x, y - 1) {
        assert(g[x].len() <= i32::MAX);
    }
    if walkable_at(g, x + 1, y) {
        assert(g[x + 1].len() <= i32::MAX);
    }
    if walkable_at(g, x - 1, y) {
        assert(g[x - 1].len() <= i32::MAX);
    }
    if i < s1.len() {
        assert(s[i] == s1[i]);
    } else if i < s1.len() + s2.len() {
        assert(s[i] == s2[i - s1.len()]);
    } else if i < s1.len() + s2.len() + s3.len() {
        assert(s[i] == s3[i - s1.len() - s2.len()]);
    } else {
        assert(s[i] == s4[i - s1.len() - s2.len() - s3.len()]);
    }
}

/// A straight corridor: a single row of `n` cells of revealed ground.
pub open spec fn is_corridor(g: Seq<Seq<Tile>>, n: int) -> bool {
    &&& g.len() == 1
    &&& g[0].len() == n
    &&& forall|y: int| 0 <= y < n ==> #[trigger] g[0][y] == (Tile::Ground { concealed: false })
}

/// Along a walk from the start of a corridor, the `i`-th cell is at most `i` cells along.
proof fn lemma_walk_advance(g: Seq<Seq<Tile>>, w: Seq<(i32, i32)>, destination: (i32, i32), i: int)
    requires
        grid_wf(g),
        is_walk(g, w, (0i32, 0i32), destination),
        0 <= i < w.len(),
    ensures
        w[i].1 <= i,
    decreases i,
{
    if i > 0 {
        let j = i - 1;
        lemma_walk_advance(g, w, destination, j);
        assert(is_step(g, w[j], w[j + 1]));
        lemma_step_shape(g, w[j], w[j + 1]);
    }
}

/// On a straight corridor of `n` walkable cells, the path from one end to the
/// other has exactly `n` cells, both ends included, and no cell twice.
pub proof fn lemma_corridor_path(g: Seq<Seq<Tile>>, n: int, r: Result<Option<Seq<(i32, i32)>>, GridError>)
    requires
        1 <= n <= i32::MAX,
        is_corridor(g, n),
        path_outcome(g, (0i32, 0i32), (0i32, (n - 1) as i32), r),
    ensures
        r is Ok,
        r->Ok_0 is Some,
        r->Ok_0->Some_0.len() == n,
        r->Ok_0->Some_0.no_duplicates(),
{
    let start = (0i32, 0i32);
    let destination = (0i32, (n - 1) as i32);
    assert(grid_wf(g));
    let straight = Seq::new(n as nat, |i: int| (0i32, i as i32));
    assert forall|i: int| 0 <= i < straight.len() - 1 implies #[trigger] is_step(g, straight[i], straight[i + 1]) by {
        let s = walkable_neighbors_of(g, 0, i);
        assert(walkable_at(g, 0, i + 1));
        assert(s[0] == straight[i + 1]);
    }
    assert(is_walk(g, straight, start, destination));
    assert(reachable(g, start, destination));
    let p = r->Ok_0->Some_0;
    assert(p.len() <= straight.len());
    lemma_walk_advance(g, p, destination, p.len() - 1);
}

/// A destination whose existing direct neighbours are all walls cannot be
/// reached from another cell that is not one of those walls.
pub proof fn lemma_enclosed_destination(
    g: Seq<Seq<Tile>>,
    start: (i32, i32),
    destination: (i32, i32),
    r: Result<Option<Seq<(i32, i32)>>, GridError>,
)
    requires
        grid_wf(g),
        in_grid(g, start.0 as int, start.1 as int),
        in_grid(g, destination.0 as int, destination.1 as int),
        start != destination,
        !adjacent(start, destination),
        forall|c: (i32, i32)| #[trigger] adjacent(c, destination) && in_grid(g, c.0 as int, c.1 as int)
            ==> g[c.0 as int][c.1 as int] is Wall,
        path_outcome(g, start, destination, r),
    ensures
        r == Ok::<Option<Seq<(i32, i32)>>, GridError>(None),
{
    assert forall|w: Seq<(i32, i32)>| !is_walk(g, w, start, destination) by {
        if is_walk(g, w, start, destination) {
            let k = w.len() - 2;
            assert(is_step(g, w[k], w[k + 1]));
            lemma_step_shape(g, w[k], w[k + 1]);
            if k > 0 {
                let j = k - 1;
                assert(is_step(g, w[j], w[j + 1]));
                lemma_step_shape(g, w[j], w[j + 1]);
                assert(adjacent(w[k], destination));
            }
        }
    }
}

impl LevelGrid {
    /// A shortest path over walkable direct neighbours from `start` to
    /// `destination`, both included; `Ok(None)` when there is none, and an
    /// out-of-bounds error when either end lies outside the grid.
    pub fn find_path(&self, start: (i32, i32), destination: (i32, i32)) -> (r: Result<Option<Path>, GridError>)
        ensures
            path_outcome(self@, start, destination, found_view(r)),
    {
        if self.get(start.0, start.1).is_none() || self.get(destination.0, destination.1).is_none() {
            return Err(GridError::OutOfBounds);
        }
        match breadth_first_search(self, start, destination) {
            Some(path) => Ok(Some(Path { path })),
            None => Ok(None),
        }
    }
}

} // verus!
