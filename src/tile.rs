use vstd::prelude::*;

verus! {

/// One cell of the cave's layout.
///
/// `Any` is a wildcard that only appears inside pattern-dictionary entries,
/// never as the content of a live grid cell.
#[derive(Clone, Copy, Debug, PartialEq, Eq, Structural)]
pub enum Tile {
    Wall { breaks: bool, ore: u8 },
    Ground { concealed: bool },
    Any,
}

/// Whether `t` is rendered as solid rock: a wall, or ground that is still concealed.
pub open spec fn looks_like_rock(t: Tile) -> bool {
    t is Wall || t == (Tile::Ground { concealed: true })
}

/// The matching relation used by the pattern matcher (not value equality).
pub open spec fn pattern_match(a: Tile, b: Tile) -> bool {
    match (a, b) {
        (Tile::Any, _) => true,
        (_, Tile::Any) => true,
        (Tile::Wall { .. }, Tile::Wall { .. }) => true,
        (Tile::Ground { concealed: false }, Tile::Ground { concealed: false }) => true,
        (Tile::Ground { concealed: true }, Tile::Wall { .. }) => true,
        (Tile::Wall { .. }, Tile::Ground { concealed: true }) => true,
        _ => false,
    }
}

/// Whether revealing `t` changes it: only concealed ground can be revealed.
pub open spec fn reveals(t: Tile) -> bool {
    t == (Tile::Ground { concealed: true })
}

/// The tile after a reveal attempt.
pub open spec fn revealed(t: Tile) -> Tile {
    if reveals(t) {
        Tile::Ground { concealed: false }
    } else {
        t
    }
}

/// Whether actors can walk on `t`: revealed ground only.
pub open spec fn walkable(t: Tile) -> bool {
    t == (Tile::Ground { concealed: false })
}

/// A tile that may stand in a live grid (anything but the wildcard).
pub open spec fn is_live(t: Tile) -> bool {
    !(t is Any)
}

impl Tile {
    /// Reveals concealed ground. Returns whether the tile changed; any other
    /// tile is left as it is.
    pub fn uncover(&mut self) -> (changed: bool)
        ensures
            changed == reveals(*old(self)),
            *final(self) == revealed(*old(self)),
    {
        match self {
            Tile::Ground { concealed } => {
                if *concealed {
                    *concealed = false;
                    return true;
                }
            },
            _ => {},
        }
        false
    }

    /// Pattern equality: walls match walls, revealed ground matches revealed
    /// ground, concealed ground matches walls, and `Any` matches everything.
    pub fn pattern_eq(&self, other: &Self) -> (r: bool)
        ensures
            r == pattern_match(*self, *other),
    {
        match (other, self) {
            (Tile::Wall { .. }, Tile::Wall { .. }) => true,
            (Tile::Ground { concealed: false }, Tile::Ground { concealed: false }) => true,
            (Tile::Ground { concealed: true }, Tile::Wall { .. }) => true,
            (Tile::Wall { .. }, Tile::Ground { concealed: true }) => true,
            (Tile::Any, _) => true,
            (_, Tile::Any) => true,
            _ => false,
        }
    }

    /// Whether actors can walk on this tile (revealed ground).
    pub fn is_walkable(&self) -> (r: bool)
        ensures
            r == walkable(*self),
    {
        match self {
            Tile::Ground { concealed: false } => true,
            _ => false,
        }
    }
}

impl Default for Tile {
    /// An unbreakable wall without ore; it also stands for cells outside the grid.
    fn default() -> (r: Tile)
        ensures
            r == (Tile::Wall { breaks: false, ore: 0 }),
    {
        Tile::Wall { breaks: false, ore: 0 }
    }
}

/// A reveal is idempotent: after the first reveal of a tile, a second one
/// reports no change and leaves the tile as it is; on concealed ground the
/// first reveal reports a change and yields revealed ground.
pub proof fn lemma_reveal_idempotent(t: Tile)
    ensures
        reveals(t) ==> revealed(t) == (Tile::Ground { concealed: false }),
        !reveals(revealed(t)),
        revealed(revealed(t)) == revealed(t),
{
}

/// Pattern equality is symmetric.
pub proof fn lemma_pattern_eq_symmetric(a: Tile, b: Tile)
    ensures
        pattern_match(a, b) == pattern_match(b, a),
{
}

} // verus!
