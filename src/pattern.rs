use vstd::prelude::*;

use crate::grid::{in_grid, tile_or_wall, GridError, LevelGrid};
use crate::tile::{pattern_match, Tile};
use crate::window::{rotate_3x3, rotate_cw_n, window_view};

verus! {

/// Ordered list of (3×3 pattern, descriptor) pairs; the first entry that
/// matches a cell's window decides its descriptor.
pub type TilePatternMap = Vec<([[Tile; 3]; 3], String)>;

/// The descriptor given to concealed ground.
pub open spec fn concealed_descriptor() -> Seq<char> {
    "concealed"@
}

/// The 3×3 window centred at `(x, y)`: `window[dx][dy]` is the tile at
/// `(x + dx - 1, y + dy - 1)`, a default wall where that cell does not exist.
pub open spec fn window_at(g: Seq<Seq<Tile>>, x: int, y: int) -> Seq<Seq<Tile>> {
    Seq::new(3, |dx: int| Seq::new(3, |dy: int| tile_or_wall(g, x + dx - 1, y + dy - 1)))
}

/// Whether all nine positions of `pattern` and `w` are pattern-equal.
pub open spec fn matches_window(pattern: Seq<Seq<Tile>>, w: Seq<Seq<Tile>>) -> bool {
    forall|i: int, j: int| 0 <= i < 3 && 0 <= j < 3 ==> #[trigger] pattern_match(pattern[i][j], w[i][j])
}

/// Whether dictionary entry `k` matches the window `w`.
pub open spec fn entry_matches(d: Seq<([[Tile; 3]; 3], String)>, k: int, w: Seq<Seq<Tile>>) -> bool {
    matches_window(window_view(d[k].0), w)
}

/// The first index `>= k` of an entry of `d` that matches `w`.
pub open spec fn first_match_from(d: Seq<([[Tile; 3]; 3], String)>, w: Seq<Seq<Tile>>, k: int) -> Option<int>
    decreases d.len() - k,
{
    if k < 0 || k >= d.len() {
        None
    } else if entry_matches(d, k, w) {
        Some(k)
    } else {
        first_match_from(d, w, k + 1)
    }
}

/// The first rotation count `>= pass` (below four) at which some entry matches
/// the window rotated that many times clockwise, with the first such entry.
pub open spec fn search_rotations(d: Seq<([[Tile; 3]; 3], String)>, w: Seq<Seq<Tile>>, pass: nat) -> Option<(int, nat)>
    decreases 4 - pass,
{
    if pass >= 4 {
        None
    } else {
        match first_match_from(d, rotate_cw_n(w, pass), 0) {
            Some(k) => Some((k, pass)),
            None => search_rotations(d, w, pass + 1),
        }
    }
}

/// The (descriptor, rotation in degrees) of the cell `(x, y)`, assumed to
/// exist; `None` when no entry matches in any rotation.
pub open spec fn sprite_of(g: Seq<Seq<Tile>>, d: Seq<([[Tile; 3]; 3], String)>, x: int, y: int) -> Option<(Seq<char>, u32)> {
    if g[x][y] == (Tile::Ground { concealed: true }) {
        Some((concealed_descriptor(), 0u32))
    } else {
        match search_rotations(d, window_at(g, x, y), 0) {
            Some((k, pass)) => Some((d[k].1@, (90 * pass) as u32)),
            None => None,
        }
    }
}

/// What `determine_sprite_for` returns for the cell `(x, y)`.
pub open spec fn sprite_result(g: Seq<Seq<Tile>>, d: Seq<([[Tile; 3]; 3], String)>, x: int, y: int) -> Result<(Seq<char>, u32), GridError> {
    if !in_grid(g, x, y) {
        Err(GridError::OutOfBounds)
    } else {
        match sprite_of(g, d, x, y) {
            Some(s) => Ok(s),
            None => Err(GridError::IncompleteDictionary),
        }
    }
}

/// The descriptor and rotation as plain values.
pub open spec fn sprite_view(r: Result<(String, u32), GridError>) -> Result<(Seq<char>, u32), GridError> {
    match r {
        Ok((s, rot)) => Ok((s@, rot)),
        Err(e) => Err(e),
    }
}

/// Concealed ground yields `("concealed", 0)`, whatever its neighbours.
pub proof fn lemma_concealed_sprite(g: Seq<Seq<Tile>>, d: Seq<([[Tile; 3]; 3], String)>, x: int, y: int)
    requires
        in_grid(g, x, y),
        g[x][y] == (Tile::Ground { concealed: true }),
    ensures
        sprite_result(g, d, x, y) == Ok::<(Seq<char>, u32), GridError>((concealed_descriptor(), 0u32)),
{
}

/// The descriptor of a cell depends on the grid, the dictionary and the
/// coordinate alone: two results for the same values are equal.
pub proof fn lemma_sprite_deterministic(
    g: Seq<Seq<Tile>>,
    d: Seq<([[Tile; 3]; 3], String)>,
    x: int,
    y: int,
    r1: Result<(String, u32), GridError>,
    r2: Result<(String, u32), GridError>,
)
    requires
        sprite_view(r1) == sprite_result(g, d, x, y),
        sprite_view(r2) == sprite_result(g, d, x, y),
    ensures
        sprite_view(r1) == sprite_view(r2),
{
}

/// Whether every position of `pattern` is pattern-equal to the same position of `key`.
fn pattern_fits(pattern: &[[Tile; 3]; 3], key: &[[Tile; 3]; 3]) -> (r: bool)
    ensures
        r == matches_window(window_view(*pattern), window_view(*key)),
{
    let mut i: usize = 0;
    while i < 3
        invariant
            0 <= i <= 3,
            forall|a: int, b: int| 0 <= a < i && 0 <= b < 3
                ==> #[trigger] pattern_match(window_view(*pattern)[a][b], window_view(*key)[a][b]),
        decreases 3 - i,
    {
        let mut j: usize = 0;
        while j < 3
            invariant
                0 <= i < 3,
                0 <= j <= 3,
                forall|a: int, b: int| 0 <= a < i && 0 <= b < 3
                    ==> #[trigger] pattern_match(window_view(*pattern)[a][b], window_view(*key)[a][b]),
                forall|b: int| 0 <= b < j
                    ==> #[trigger] pattern_match(window_view(*pattern)[i as int][b], window_view(*key)[i as int][b]),
            decreases 3 - j,
        {
            if !pattern[i][j].pattern_eq(&key[i][j]) {
                assert(!pattern_match(window_view(*pattern)[i as int][j as int], window_view(*key)[i as int][j as int]));
                return false;
            }
            j = j + 1;
        }
        i = i + 1;
    }
    true
}

impl LevelGrid {
    /// The 3×3 window centred at `(x, y)`, with default walls outside the grid.
    fn window(&self, x: i32, y: i32) -> (r: [[Tile; 3]; 3])
        ensures
            window_view(r) == window_at(self@, x as int, y as int),
    {
        let r = [
            [self.tile_or_default(x, y, -1, -1), self.tile_or_default(x, y, -1, 0), self.tile_or_default(x, y, -1, 1)],
            [self.tile_or_default(x, y, 0, -1), self.tile_or_default(x, y, 0, 0), self.tile_or_default(x, y, 0, 1)],
            [self.tile_or_default(x, y, 1, -1), self.tile_or_default(x, y, 1, 0), self.tile_or_default(x, y, 1, 1)],
        ];
        assert(window_view(r) =~~= window_at(self@, x as int, y as int));
        r
    }

    /// The descriptor and rotation (degrees, clockwise) that fit the cell
    /// `(x, y)` into its neighbourhood. Concealed ground is always
    /// `("concealed", 0)`. Otherwise the window is rotated clockwise up to
    /// three times, and at each rotation the entries are tried in order.
    pub fn determine_sprite_for(&self, x: i32, y: i32, tile_patterns: &TilePatternMap) -> (r: Result<(String, u32), GridError>)
        ensures
            sprite_view(r) == sprite_result(self@, tile_patterns@, x as int, y as int),
    {
        let tile = match self.get(x, y) {
            Some(t) => t,
            None => return Err(GridError::OutOfBounds),
        };
        if let Tile::Ground { concealed: true } = tile {
            return Ok(("concealed".to_owned(), 0));
        }
        let ghost d = tile_patterns@;
        let ghost w = window_at(self@, x as int, y as int);
        let mut key = self.window(x, y);
        let mut pass: u32 = 0;
        while pass < 4
            invariant
                0 <= pass <= 4,
                d == tile_patterns@,
                in_grid(self@, x as int, y as int),
                w == window_at(self@, x as int, y as int),
                self@[x as int][y as int] != (Tile::Ground { concealed: true }),
                window_view(key) == rotate_cw_n(w, pass as nat),
                search_rotations(d, w, 0) == search_rotations(d, w, pass as nat),
            decreases 4 - pass,
        {
            let mut k: usize = 0;
            while k < tile_patterns.len()
                invariant
                    0 <= pass < 4,
                    0 <= k <= d.len(),
                    d == tile_patterns@,
                    in_grid(self@, x as int, y as int),
                    w == window_at(self@, x as int, y as int),
                w == window_at(self@, x as int, y as int),
                    self@[x as int][y as int] != (Tile::Ground { concealed: true }),
                    search_rotations(d, w, 0) == search_rotations(d, w, pass as nat),
                    window_view(key) == rotate_cw_n(w, pass as nat),
                    first_match_from(d, rotate_cw_n(w, pass as nat), 0)
                        == first_match_from(d, rotate_cw_n(w, pass as nat), k as int),
                decreases d.len() - k,
            {
                if pattern_fits(&tile_patterns[k].0, &key) {
                    assert(search_rotations(d, w, pass as nat) == Some((k as int, pass as nat)));
                    let descriptor = tile_patterns[k].1.clone();
                    let rotation = 90 * pass;
                    assert(descriptor@ == d[k as int].1@);
                    assert(sprite_of(self@, d, x as int, y as int) == Some((descriptor@, rotation)));
                    return Ok((descriptor, rotation));
                }
                k = k + 1;
            }
            key = rotate_3x3(&key);
            pass = pass + 1;
        }
        Err(GridError::IncompleteDictionary)
    }
}

} // verus!
