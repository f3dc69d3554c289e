use vstd::prelude::*;

use crate::grid::{GridError, LevelGrid};
use crate::pattern::{sprite_result, sprite_view, TilePatternMap};
use crate::tile::Tile;

verus! {

/// A rendering notification: a cell and the descriptor and rotation (degrees)
/// recomputed for it, or the error that the pattern matcher reported.
#[derive(Debug, PartialEq)]
pub struct TileUpdate {
    pub x: i32,
    pub y: i32,
    pub sprite: Result<(String, u32), GridError>,
}

/// A notification as plain values.
pub open spec fn update_view(u: TileUpdate) -> (i32, i32, Result<(Seq<char>, u32), GridError>) {
    (u.x, u.y, sprite_view(u.sprite))
}

/// A list of notifications as plain values.
pub open spec fn updates_view(v: Seq<TileUpdate>) -> Seq<(i32, i32, Result<(Seq<char>, u32), GridError>)> {
    v.map_values(|u: TileUpdate| update_view(u))
}

/// The notifications for `cells`, in order, each computed on the grid `g`.
pub open spec fn updates_for(
    g: Seq<Seq<Tile>>,
    d: Seq<([[Tile; 3]; 3], String)>,
    cells: Seq<(i32, i32)>,
) -> Seq<(i32, i32, Result<(Seq<char>, u32), GridError>)> {
    cells.map_values(|p: (i32, i32)| (p.0, p.1, sprite_result(g, d, p.0 as int, p.1 as int)))
}

/// Every cell of `g` in the rows before `x`, row by row.
pub open spec fn cells_before_row(g: Seq<Seq<Tile>>, x: int) -> Seq<(i32, i32)>
    decreases x,
{
    if x <= 0 {
        seq![]
    } else {
        cells_before_row(g, x - 1) + Seq::new(g[x - 1].len(), |y: int| ((x - 1) as i32, y as i32))
    }
}

/// Every cell of `g`, row by row.
pub open spec fn all_cells(g: Seq<Seq<Tile>>) -> Seq<(i32, i32)> {
    cells_before_row(g, g.len() as int)
}

impl LevelGrid {
    /// Appends to `out` the notification of each cell of `cells`, in order.
    pub fn refresh_cells(&self, cells: &Vec<(i32, i32)>, tile_patterns: &TilePatternMap, out: &mut Vec<TileUpdate>)
        ensures
            updates_view(final(out)@) == updates_view(old(out)@) + updates_for(self@, tile_patterns@, cells@),
    {
        let ghost start = updates_view(out@);
        let mut i: usize = 0;
        while i < cells.len()
            invariant
                0 <= i <= cells@.len(),
                updates_view(out@) == start + updates_for(self@, tile_patterns@, cells@.take(i as int)),
            decreases cells@.len() - i,
        {
            let (x, y) = cells[i];
            let sprite = self.determine_sprite_for(x, y, tile_patterns);
            let ghost before = out@;
            out.push(TileUpdate { x, y, sprite });
            proof {
                assert(cells@.take(i + 1) =~= cells@.take(i as int).push(cells@[i as int]));
                assert(out@ =~= before.push(out@.last()));
                assert(updates_view(out@) =~= updates_view(before).push(update_view(out@.last())));
                assert(updates_for(self@, tile_patterns@, cells@.take(i + 1)) =~=
                    updates_for(self@, tile_patterns@, cells@.take(i as int)).push(
                        (x, y, sprite_result(self@, tile_patterns@, x as int, y as int))));
            }
            i = i + 1;
        }
        assert(cells@.take(cells@.len() as int) =~= cells@);
    }
}

/// Cells that wait for their descriptor to be recomputed.
pub struct TileUpdateQueue {
    tiles: Vec<(i32, i32)>,
}

impl View for TileUpdateQueue {
    type V = Seq<(i32, i32)>;

    closed spec fn view(&self) -> Seq<(i32, i32)> {
        self.tiles@
    }
}

impl TileUpdateQueue {
    /// An empty queue.
    pub fn new() -> (r: TileUpdateQueue)
        ensures
            r@ == Seq::<(i32, i32)>::empty(),
    {
        TileUpdateQueue { tiles: Vec::new() }
    }

    /// Queues the cell `(x, y)`.
    pub fn push(&mut self, x: i32, y: i32)
        ensures
            final(self)@ == old(self)@.push((x, y)),
    {
        self.tiles.push((x, y));
    }

    /// Number of queued cells.
    pub fn len(&self) -> (r: usize)
        ensures
            r == self@.len(),
    {
        self.tiles.len()
    }

    /// A queue that holds every cell of `grid`, row by row (as at level load).
    pub fn of_grid(grid: &LevelGrid) -> (r: TileUpdateQueue)
        ensures
            r@ == all_cells(grid@),
    {
        let mut tiles: Vec<(i32, i32)> = Vec::new();
        let n = grid.x_len();
        let mut x: usize = 0;
        while x < n
            invariant
                n == grid@.len(),
                n <= i32::MAX,
                0 <= x <= n,
                tiles@ == cells_before_row(grid@, x as int),
            decreases n - x,
        {
            let m = grid.row_len(x);
            let mut y: usize = 0;
            while y < m
                invariant
                    n == grid@.len(),
                    0 <= x < n,
                    n <= i32::MAX,
                    m == grid@[x as int].len(),
                    m <= i32::MAX,
                    0 <= y <= m,
                    tiles@ == cells_before_row(grid@, x as int) + Seq::new(y as nat, |j: int| (x as i32, j as i32)),
                decreases m - y,
            {
                tiles.push((x as i32, y as i32));
                assert(Seq::new(y as nat, |j: int| (x as i32, j as i32)).push((x as i32, y as i32))
                    =~= Seq::new((y + 1) as nat, |j: int| (x as i32, j as i32)));
                y = y + 1;
            }
            assert(Seq::new(m as nat, |j: int| (x as i32, j as i32))
                =~= Seq::new(grid@[x as int].len(), |j: int| (x as i32, j as i32)));
            x = x + 1;
        }
        TileUpdateQueue { tiles }
    }
}

/// Recomputes the descriptors of queued cells.
pub struct TileUpdateSystem;

impl TileUpdateSystem {
    /// Returns the notification of every queued cell, in queue order, and
    /// empties the queue.
    pub fn run(&mut self, tiles: &mut TileUpdateQueue, grid: &LevelGrid, tile_patterns: &TilePatternMap) -> (r: Vec<TileUpdate>)
        ensures
            updates_view(r@) == updates_for(grid@, tile_patterns@, old(tiles)@),
            final(tiles)@ == Seq::<(i32, i32)>::empty(),
    {
        let mut out: Vec<TileUpdate> = Vec::new();
        grid.refresh_cells(&tiles.tiles, tile_patterns, &mut out);
        assert(updates_view(Seq::<TileUpdate>::empty()) =~= seq![]);
        assert(updates_view(out@) =~= updates_for(grid@, tile_patterns@, old(tiles)@));
        tiles.tiles = Vec::new();
        out
    }
}

} // verus!
