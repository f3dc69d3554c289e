use rockraiders::{GridError, LevelGrid, Tile};

const WALL: Tile = Tile::Wall { breaks: false, ore: 0 };
const CONCEALED: Tile = Tile::Ground { concealed: true };
const REVEALED: Tile = Tile::Ground { concealed: false };

fn grid_of(rows: Vec<Vec<Tile>>) -> LevelGrid {
    LevelGrid::from_grid(rows).unwrap()
}

#[test]
fn corridor_path_has_every_cell_once() {
    let g = grid_of(vec![vec![REVEALED; 5]]);
    let path = g.find_path((0, 0), (0, 4)).unwrap().unwrap();
    assert_eq!(path.path, vec![(0, 0), (0, 1), (0, 2), (0, 3), (0, 4)]);
}

#[test]
fn enclosed_destination_has_no_path() {
    let mut rows = vec![vec![REVEALED; 5]; 5];
    rows[1][2] = WALL;
    rows[3][2] = WALL;
    rows[2][1] = WALL;
    rows[2][3] = WALL;
    let g = grid_of(rows);
    assert!(matches!(g.find_path((0, 0), (2, 2)), Ok(None)));
}

#[test]
fn path_goes_around_walls() {
    let g = grid_of(vec![
        vec![REVEALED, REVEALED, REVEALED],
        vec![WALL, WALL, REVEALED],
        vec![REVEALED, REVEALED, REVEALED],
    ]);
    let path = g.find_path((0, 0), (2, 0)).unwrap().unwrap();
    assert_eq!(path.path, vec![(0, 0), (0, 1), (0, 2), (1, 2), (2, 2), (2, 1), (2, 0)]);
}

#[test]
fn concealed_ground_blocks_the_way() {
    let g = grid_of(vec![vec![REVEALED, CONCEALED, REVEALED]]);
    assert!(matches!(g.find_path((0, 0), (0, 2)), Ok(None)));
}

#[test]
fn path_to_itself_is_one_cell() {
    let g = grid_of(vec![vec![REVEALED; 2]]);
    let path = g.find_path((0, 1), (0, 1)).unwrap().unwrap();
    assert_eq!(path.path, vec![(0, 1)]);
}

#[test]
fn path_ends_outside_grid_are_out_of_bounds() {
    let g = grid_of(vec![vec![REVEALED; 2]]);
    assert!(matches!(g.find_path((0, 0), (0, 2)), Err(GridError::OutOfBounds)));
    assert!(matches!(g.find_path((-1, 0), (0, 1)), Err(GridError::OutOfBounds)));
}

#[test]
fn path_is_consumed_from_the_front() {
    let g = grid_of(vec![vec![REVEALED; 3]]);
    let mut path = g.find_path((0, 0), (0, 2)).unwrap().unwrap();
    assert_eq!(path.next_waypoint(), Some((0, 0)));
    path.reach_waypoint();
    assert_eq!(path.next_waypoint(), Some((0, 1)));
    path.reach_waypoint();
    path.reach_waypoint();
    assert!(path.is_empty());
    assert_eq!(path.next_waypoint(), None);
    path.reach_waypoint();
    assert!(path.is_empty());
}

#[test]
fn movement_drops_reached_cells_and_detaches_at_the_end() {
    let g = grid_of(vec![vec![REVEALED; 2]]);
    let mut path = g.find_path((0, 0), (0, 1)).unwrap().unwrap();
    let movement = rockraiders::MovementSystem;
    assert!(!movement.update_path(&mut path, false));
    assert_eq!(path.next_waypoint(), Some((0, 0)));
    assert!(!movement.update_path(&mut path, true));
    assert_eq!(path.next_waypoint(), Some((0, 1)));
    assert!(movement.update_path(&mut path, true));
    assert!(path.is_empty());
}
