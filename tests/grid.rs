use rockraiders::{GridError, LevelGrid, Tile};

const WALL: Tile = Tile::Wall { breaks: false, ore: 0 };
const CONCEALED: Tile = Tile::Ground { concealed: true };
const REVEALED: Tile = Tile::Ground { concealed: false };

fn grid_of(rows: Vec<Vec<Tile>>) -> LevelGrid {
    LevelGrid::from_grid(rows).unwrap()
}

#[test]
fn from_grid_rejects_wildcard() {
    let r = LevelGrid::from_grid(vec![vec![WALL, Tile::Any]]);
    assert!(matches!(r, Err(GridError::WildcardInGrid)));
}

#[test]
fn get_is_bounds_checked_on_ragged_rows() {
    let g = grid_of(vec![vec![WALL, REVEALED, CONCEALED], vec![REVEALED]]);
    assert_eq!(g.get(0, 1), Some(REVEALED));
    assert_eq!(g.get(0, 2), Some(CONCEALED));
    assert_eq!(g.get(1, 0), Some(REVEALED));
    assert_eq!(g.get(1, 1), None);
    assert_eq!(g.get(-1, 0), None);
    assert_eq!(g.get(0, -1), None);
    assert_eq!(g.get(2, 0), None);
    assert_eq!(g.x_len(), 2);
    assert_eq!(g.y_len(), 3);
    assert_eq!(g.row_len(1), 1);
}

#[test]
fn neighbors_of_center_in_order() {
    let g = grid_of(vec![vec![WALL; 3]; 3]);
    assert_eq!(g.direct_neighbors(1, 1), vec![(1, 2), (1, 0), (2, 1), (0, 1)]);
    assert_eq!(g.diagonal_neighbors(1, 1), vec![(2, 0), (2, 2), (0, 2), (0, 0)]);
}

#[test]
fn neighbors_of_corner_omit_outside_cells() {
    let g = grid_of(vec![vec![WALL; 3]; 3]);
    assert_eq!(g.direct_neighbors(0, 0), vec![(0, 1), (1, 0)]);
    assert_eq!(g.diagonal_neighbors(0, 0), vec![(1, 1)]);
    assert_eq!(g.direct_neighbors(i32::MAX, i32::MIN), vec![]);
}

#[test]
fn walkable_neighbors_keep_revealed_ground() {
    let g = grid_of(vec![
        vec![WALL, REVEALED, WALL],
        vec![CONCEALED, REVEALED, REVEALED],
        vec![WALL, WALL, WALL],
    ]);
    assert_eq!(g.walkable_neighbors(1, 1), vec![(1, 2), (0, 1)]);
}

#[test]
fn uncover_at_reveals_concealed_ground_once() {
    let mut g = grid_of(vec![vec![CONCEALED, WALL]]);
    assert!(g.uncover_at(0, 0));
    assert_eq!(g.get(0, 0), Some(REVEALED));
    assert!(!g.uncover_at(0, 0));
    assert!(!g.uncover_at(0, 1));
    assert_eq!(g.get(0, 1), Some(WALL));
    assert!(!g.uncover_at(5, 5));
}

#[test]
fn default_grid_has_one_empty_row() {
    let g = LevelGrid::default();
    assert_eq!(g.x_len(), 1);
    assert_eq!(g.y_len(), 0);
}
