use vstd::prelude::*;

use crate::tile::{is_live, walkable, Tile};

verus! {

/// Errors of the grid engine.
#[derive(Clone, Copy, Debug, PartialEq, Eq, Structural)]
pub enum GridError {
    /// A coordinate lies outside the grid.
    OutOfBounds,
    /// No dictionary entry matches a cell's window in any of the four rotations.
    IncompleteDictionary,
    /// A live grid was given the wildcard tile.
    WildcardInGrid,
}

/// Whether `(x, y)` names a cell of `g` (rows may differ in length).
pub open spec fn in_grid(g: Seq<Seq<Tile>>, x: int, y: int) -> bool {
    0 <= x < g.len() && 0 <= y < g[x].len()
}

/// The tile at `(x, y)`, if that cell exists.
pub open spec fn cell(g: Seq<Seq<Tile>>, x: int, y: int) -> Option<Tile> {
    if in_grid(g, x, y) {
        Some(g[x][y])
    } else {
        None
    }
}

/// The tile at `(x, y)`, or an unbreakable wall without ore outside the grid.
pub open spec fn tile_or_wall(g: Seq<Seq<Tile>>, x: int, y: int) -> Tile {
    if in_grid(g, x, y) {
        g[x][y]
    } else {
        Tile::Wall { breaks: false, ore: 0 }
    }
}

/// Whether the cell `(x, y)` exists and can be walked on.
pub open spec fn walkable_at(g: Seq<Seq<Tile>>, x: int, y: int) -> bool {
    in_grid(g, x, y) && walkable(g[x][y])
}

/// `g` after a reveal attempt at `(x, y)`: concealed ground there becomes revealed ground.
pub open spec fn uncovered_grid(g: Seq<Seq<Tile>>, x: int, y: int) -> Seq<Seq<Tile>> {
    if cell(g, x, y) == Some(Tile::Ground { concealed: true }) {
        g.update(x, g[x].update(y, Tile::Ground { concealed: false }))
    } else {
        g
    }
}

/// A grid that can stand in a `LevelGrid`: every cell addressable with `i32`
/// coordinates, and no wildcard among its cells.
pub open spec fn grid_wf(g: Seq<Seq<Tile>>) -> bool {
    &&& g.len() <= i32::MAX
    &&& forall|x: int| 0 <= x < g.len() ==> #[trigger] g[x].len() <= i32::MAX
    &&& forall|x: int, y: int| in_grid(g, x, y) ==> is_live(#[trigger] g[x][y])
}

/// The cell `(x + dx, y + dy)` as a one-element sequence when it exists, else empty.
pub open spec fn neighbor_if_present(g: Seq<Seq<Tile>>, x: int, y: int, dx: int, dy: int) -> Seq<(i32, i32)> {
    if in_grid(g, x + dx, y + dy) {
        seq![((x + dx) as i32, (y + dy) as i32)]
    } else {
        seq![]
    }
}

/// The cell `(x + dx, y + dy)` as a one-element sequence when it exists and is walkable.
pub open spec fn neighbor_if_walkable(g: Seq<Seq<Tile>>, x: int, y: int, dx: int, dy: int) -> Seq<(i32, i32)> {
    if walkable_at(g, x + dx, y + dy) {
        seq![((x + dx) as i32, (y + dy) as i32)]
    } else {
        seq![]
    }
}

/// The existing cells at `(0, 1)`, `(0, -1)`, `(1, 0)`, `(-1, 0)` from `(x, y)`, in that order.
pub open spec fn direct_neighbors_of(g: Seq<Seq<Tile>>, x: int, y: int) -> Seq<(i32, i32)> {
    neighbor_if_present(g, x, y, 0, 1) + neighbor_if_present(g, x, y, 0, -1)
        + neighbor_if_present(g, x, y, 1, 0) + neighbor_if_present(g, x, y, -1, 0)
}

/// The existing cells at `(1, -1)`, `(1, 1)`, `(-1, 1)`, `(-1, -1)` from `(x, y)`, in that order.
pub open spec fn diagonal_neighbors_of(g: Seq<Seq<Tile>>, x: int, y: int) -> Seq<(i32, i32)> {
    neighbor_if_present(g, x, y, 1, -1) + neighbor_if_present(g, x, y, 1, 1)
        + neighbor_if_present(g, x, y, -1, 1) + neighbor_if_present(g, x, y, -1, -1)
}

/// The direct neighbours of `(x, y)` that can be walked on, in the order of `direct_neighbors_of`.
pub open spec fn walkable_neighbors_of(g: Seq<Seq<Tile>>, x: int, y: int) -> Seq<(i32, i32)> {
    neighbor_if_walkable(g, x, y, 0, 1) + neighbor_if_walkable(g, x, y, 0, -1)
        + neighbor_if_walkable(g, x, y, 1, 0) + neighbor_if_walkable(g, x, y, -1, 0)
}

/// The cave's layout: a two-dimensional array of tiles indexed `[x][y]`.
pub struct LevelGrid {
    grid: Vec<Vec<Tile>>,
}

impl View for LevelGrid {
    type V = Seq<Seq<Tile>>;

    closed spec fn view(&self) -> Seq<Seq<Tile>> {
        Seq::new(self.grid@.len(), |i: int| self.grid@[i]@)
    }
}

impl Default for LevelGrid {
    /// A grid with a single empty row.
    fn default() -> (r: LevelGrid)
        ensures
            r@ == seq![Seq::<Tile>::empty()],
    {
        let r = LevelGrid { grid: vec![Vec::new()] };
        assert(r@ =~~= seq![Seq::<Tile>::empty()]);
        r
    }
}

impl LevelGrid {
    #[verifier::type_invariant]
    closed spec fn inv(&self) -> bool {
        grid_wf(self@)
    }

    /// Builds the grid from rows of tiles; fails when a cell holds the wildcard.
    pub fn from_grid(tile_grid: Vec<Vec<Tile>>) -> (r: Result<LevelGrid, GridError>)
        requires
            tile_grid@.len() <= i32::MAX,
            forall|x: int| 0 <= x < tile_grid@.len() ==> #[trigger] tile_grid@[x]@.len() <= i32::MAX,
        ensures
            match r {
                Ok(g) => g@ == Seq::new(tile_grid@.len(), |i: int| tile_grid@[i]@),
                Err(e) => e == GridError::WildcardInGrid,
            },
            r is Ok <==> forall|x: int, y: int|
                0 <= x < tile_grid@.len() && 0 <= y < tile_grid@[x]@.len()
                    ==> is_live(#[trigger] tile_grid@[x]@[y]),
    {
        let ghost g = Seq::new(tile_grid@.len(), |i: int| tile_grid@[i]@);
        let mut x: usize = 0;
        while x < tile_grid.len()
            invariant
                0 <= x <= tile_grid@.len(),
                g == Seq::new(tile_grid@.len(), |i: int| tile_grid@[i]@),
                forall|a: int, b: int| 0 <= a < x && 0 <= b < tile_grid@[a]@.len() ==> is_live(#[trigger] tile_grid@[a]@[b]),
            decreases tile_grid@.len() - x,
        {
            let row = &tile_grid[x];
            let mut y: usize = 0;
            while y < row.len()
                invariant
                    0 <= x < tile_grid@.len(),
                    *row == tile_grid@[x as int],
                    0 <= y <= row@.len(),
                    g == Seq::new(tile_grid@.len(), |i: int| tile_grid@[i]@),
                    forall|a: int, b: int| 0 <= a < x && 0 <= b < tile_grid@[a]@.len() ==> is_live(#[trigger] tile_grid@[a]@[b]),
                    forall|b: int| 0 <= b < y ==> is_live(#[trigger] tile_grid@[x as int]@[b]),
                decreases row@.len() - y,
            {
                if let Tile::Any = row[y] {
                    assert(!is_live(tile_grid@[x as int]@[y as int]));
                    return Err(GridError::WildcardInGrid);
                }
                y = y + 1;
            }
            x = x + 1;
        }
        let r = LevelGrid { grid: tile_grid };
        assert(r@ =~= g);
        Ok(r)
    }

    /// Length of row `x`.
    pub fn row_len(&self, x: usize) -> (r: usize)
        requires
            x < self@.len(),
        ensures
            r == self@[x as int].len(),
            r <= i32::MAX,
    {
        proof {
            use_type_invariant(self);
        }
        self.grid[x].len()
    }

    /// Number of rows (extent along `x`).
    pub fn x_len(&self) -> (r: usize)
        ensures
            r == self@.len(),
            r <= i32::MAX,
    {
        proof {
            use_type_invariant(self);
        }
        self.grid.len()
    }

    /// Length of the first row (extent along `y` of a rectangular grid).
    pub fn y_len(&self) -> (r: usize)
        requires
            self@.len() > 0,
        ensures
            r == self@[0].len(),
    {
        self.grid[0].len()
    }

    /// The tile at `(x, y)`, or `None` outside the grid.
    pub fn get(&self, x: i32, y: i32) -> (r: Option<Tile>)
        ensures
            r == cell(self@, x as int, y as int),
    {
        if x < 0 || y < 0 {
            return None;
        }
        let xu = x as usize;
        let yu = y as usize;
        if xu >= self.grid.len() {
            return None;
        }
        let row = &self.grid[xu];
        if yu >= row.len() {
            return None;
        }
        Some(row[yu])
    }

    /// Reveals the cell `(x, y)` when it holds concealed ground; returns whether it changed.
    pub fn uncover_at(&mut self, x: i32, y: i32) -> (changed: bool)
        ensures
            changed == (cell(old(self)@, x as int, y as int) == Some(Tile::Ground { concealed: true })),
            final(self)@ == uncovered_grid(old(self)@, x as int, y as int),
    {
        proof {
            use_type_invariant(&*self);
        }
        match self.get(x, y) {
            Some(t) => {
                let mut t = t;
                if t.uncover() {
                    let xu = x as usize;
                    let yu = y as usize;
                    let ghost g0 = self@;
                    let mut rows: Vec<Vec<Tile>> = Vec::new();
                    std::mem::swap(&mut self.grid, &mut rows);
                    let mut row: Vec<Tile> = Vec::new();
                    std::mem::swap(&mut rows[xu], &mut row);
                    row.set(yu, t);
                    rows.set(xu, row);
                    let ghost g1 = Seq::new(rows@.len(), |i: int| rows@[i]@);
                    assert(g1 =~= g0.update(x as int, g0[x as int].update(y as int, t)));
                    assert(grid_wf(g1)) by {
                        assert forall|a: int, b: int| in_grid(g1, a, b) implies is_live(#[trigger] g1[a][b]) by {
                            assert(in_grid(g0, a, b));
                        }
                        assert forall|a: int| 0 <= a < g1.len() implies #[trigger] g1[a].len() <= i32::MAX by {
                            assert(g1[a].len() == g0[a].len());
                        }
                    }
                    self.grid = rows;
                    assert(self@ =~= g1);
                    true
                } else {
                    false
                }
            },
            None => false,
        }
    }

    /// Appends `(x + dx, y + dy)` to `out` when that cell exists and, if
    /// `only_walkable`, can be walked on.
    fn push_neighbor(&self, out: &mut Vec<(i32, i32)>, x: i32, y: i32, dx: i32, dy: i32, only_walkable: bool)
        requires
            -1 <= dx <= 1,
            -1 <= dy <= 1,
        ensures
            final(out)@ == old(out)@ + if only_walkable {
                neighbor_if_walkable(self@, x as int, y as int, dx as int, dy as int)
            } else {
                neighbor_if_present(self@, x as int, y as int, dx as int, dy as int)
            },
    {
        proof {
            use_type_invariant(self);
        }
        let nx = x.checked_add(dx);
        let ny = y.checked_add(dy);
        match (nx, ny) {
            (Some(nx), Some(ny)) => {
                match self.get(nx, ny) {
                    Some(t) => {
                        if !only_walkable || t.is_walkable() {
                            out.push((nx, ny));
                        }
                    },
                    None => {},
                }
            },
            _ => {
                assert(!in_grid(self@, x + dx, y + dy));
            },
        }
    }

    /// The tile at `(x + dx, y + dy)`, or the default wall outside the grid.
    pub(crate) fn tile_or_default(&self, x: i32, y: i32, dx: i32, dy: i32) -> (r: Tile)
        requires
            -1 <= dx <= 1,
            -1 <= dy <= 1,
        ensures
            r == tile_or_wall(self@, x + dx, y + dy),
    {
        proof {
            use_type_invariant(self);
        }
        match (x.checked_add(dx), y.checked_add(dy)) {
            (Some(nx), Some(ny)) => match self.get(nx, ny) {
                Some(t) => t,
                None => Tile::default(),
            },
            _ => Tile::default(),
        }
    }

    /// The cells at `(0, 1)`, `(0, -1)`, `(1, 0)`, `(-1, 0)` from `(x, y)` that exist.
    pub fn direct_neighbors(&self, x: i32, y: i32) -> (r: Vec<(i32, i32)>)
        ensures
            r@ == direct_neighbors_of(self@, x as int, y as int),
    {
        let mut result: Vec<(i32, i32)> = Vec::new();
        self.push_neighbor(&mut result, x, y, 0, 1, false);
        self.push_neighbor(&mut result, x, y, 0, -1, false);
        self.push_neighbor(&mut result, x, y, 1, 0, false);
        self.push_neighbor(&mut result, x, y, -1, 0, false);
        assert(result@ =~= direct_neighbors_of(self@, x as int, y as int));
        result
    }

    /// The cells at `(1, -1)`, `(1, 1)`, `(-1, 1)`, `(-1, -1)` from `(x, y)` that exist.
    pub fn diagonal_neighbors(&self, x: i32, y: i32) -> (r: Vec<(i32, i32)>)
        ensures
            r@ == diagonal_neighbors_of(self@, x as int, y as int),
    {
        let mut result: Vec<(i32, i32)> = Vec::new();
        self.push_neighbor(&mut result, x, y, 1, -1, false);
        self.push_neighbor(&mut result, x, y, 1, 1, false);
        self.push_neighbor(&mut result, x, y, -1, 1, false);
        self.push_neighbor(&mut result, x, y, -1, -1, false);
        assert(result@ =~= diagonal_neighbors_of(self@, x as int, y as int));
        result
    }

    /// The direct neighbours of `(x, y)` that can be walked on.
    pub fn walkable_neighbors(&self, x: i32, y: i32) -> (r: Vec<(i32, i32)>)
        ensures
            r@ == walkable_neighbors_of(self@, x as int, y as int),
    {
        let mut result: Vec<(i32, i32)> = Vec::new();
        self.push_neighbor(&mut result, x, y, 0, 1, true);
        self.push_neighbor(&mut result, x, y, 0, -1, true);
        self.push_neighbor(&mut result, x, y, 1, 0, true);
        self.push_neighbor(&mut result, x, y, -1, 0, true);
        assert(result@ =~= walkable_neighbors_of(self@, x as int, y as int));
        result
    }
}

} // verus!
