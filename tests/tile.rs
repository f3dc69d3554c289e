use rockraiders::{rotate_3x3, RockRaider, Tile};

const WALL: Tile = Tile::Wall { breaks: false, ore: 0 };
const ORE_WALL: Tile = Tile::Wall { breaks: true, ore: 3 };
const CONCEALED: Tile = Tile::Ground { concealed: true };
const REVEALED: Tile = Tile::Ground { concealed: false };

fn all_tiles() -> Vec<Tile> {
    vec![WALL, ORE_WALL, CONCEALED, REVEALED, Tile::Any]
}

#[test]
fn uncover_concealed_ground_twice() {
    let mut t = CONCEALED;
    assert!(t.uncover());
    assert_eq!(t, REVEALED);
    assert!(!t.uncover());
    assert_eq!(t, REVEALED);
}

#[test]
fn uncover_leaves_other_tiles_alone() {
    for t in [WALL, ORE_WALL, REVEALED, Tile::Any] {
        let mut u = t;
        assert!(!u.uncover());
        assert_eq!(u, t);
    }
}

#[test]
fn pattern_eq_is_symmetric_on_all_pairs() {
    for a in all_tiles() {
        for b in all_tiles() {
            assert_eq!(a.pattern_eq(&b), b.pattern_eq(&a));
        }
    }
}

#[test]
fn pattern_eq_table() {
    assert!(WALL.pattern_eq(&ORE_WALL));
    assert!(REVEALED.pattern_eq(&REVEALED));
    assert!(CONCEALED.pattern_eq(&WALL));
    assert!(WALL.pattern_eq(&CONCEALED));
    assert!(Tile::Any.pattern_eq(&REVEALED));
    assert!(CONCEALED.pattern_eq(&Tile::Any));
    assert!(!REVEALED.pattern_eq(&CONCEALED));
    assert!(!CONCEALED.pattern_eq(&REVEALED));
    assert!(!CONCEALED.pattern_eq(&CONCEALED));
    assert!(!WALL.pattern_eq(&REVEALED));
}

#[test]
fn only_revealed_ground_is_walkable() {
    assert!(REVEALED.is_walkable());
    assert!(!CONCEALED.is_walkable());
    assert!(!WALL.is_walkable());
    assert!(!Tile::Any.is_walkable());
}

#[test]
fn default_wall_is_plain_wall() {
    assert_eq!(Tile::default(), WALL);
}

#[test]
fn rotate_3x3_turns_clockwise() {
    let m = [[1, 2, 3], [4, 5, 6], [7, 8, 9]];
    assert_eq!(rotate_3x3(&m), [[7, 4, 1], [8, 5, 2], [9, 6, 3]]);
}

#[test]
fn rotate_3x3_four_times_is_identity() {
    let m = [[WALL, REVEALED, CONCEALED], [Tile::Any, ORE_WALL, WALL], [REVEALED, REVEALED, WALL]];
    let r = rotate_3x3(&rotate_3x3(&rotate_3x3(&rotate_3x3(&m))));
    assert_eq!(r, m);
    assert_ne!(rotate_3x3(&m), m);
}

#[test]
fn rock_raider_asset_name() {
    assert_eq!(RockRaider::asset_name(), "/rock_raider/default");
}
