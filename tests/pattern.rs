use rockraiders::{GridError, LevelGrid, Tile, TilePatternMap, TileUpdateQueue, TileUpdateSystem};

const WALL: Tile = Tile::Wall { breaks: false, ore: 0 };
const CONCEALED: Tile = Tile::Ground { concealed: true };
const REVEALED: Tile = Tile::Ground { concealed: false };

fn grid_of(rows: Vec<Vec<Tile>>) -> LevelGrid {
    LevelGrid::from_grid(rows).unwrap()
}

fn all_wall_dictionary() -> TilePatternMap {
    let mut pattern = [[WALL; 3]; 3];
    pattern[1][1] = Tile::Any;
    vec![(pattern, "all_wall".to_string())]
}

#[test]
fn single_wall_yields_all_wall() {
    let g = grid_of(vec![vec![WALL]]);
    let dict = all_wall_dictionary();
    assert_eq!(g.determine_sprite_for(0, 0, &dict), Ok(("all_wall".to_string(), 0)));
}

#[test]
fn concealed_ground_yields_concealed() {
    let g = grid_of(vec![
        vec![REVEALED, REVEALED, REVEALED],
        vec![REVEALED, CONCEALED, REVEALED],
        vec![REVEALED, REVEALED, REVEALED],
    ]);
    let empty: TilePatternMap = vec![];
    assert_eq!(g.determine_sprite_for(1, 1, &empty), Ok(("concealed".to_string(), 0)));
    assert_eq!(g.determine_sprite_for(1, 1, &all_wall_dictionary()), Ok(("concealed".to_string(), 0)));
}

#[test]
fn determine_sprite_is_deterministic() {
    let g = grid_of(vec![vec![WALL, REVEALED], vec![WALL, WALL]]);
    let dict = all_wall_dictionary();
    let first = g.determine_sprite_for(1, 1, &dict);
    let second = g.determine_sprite_for(1, 1, &dict);
    assert_eq!(first, second);
}

fn straight_wall_dictionary() -> TilePatternMap {
    let pattern = [[REVEALED, REVEALED, REVEALED], [WALL, Tile::Any, WALL], [WALL, WALL, WALL]];
    vec![(pattern, "straight_wall".to_string())]
}

#[test]
fn window_rotation_gives_ninety_degrees() {
    // Ground along y == 0, walls elsewhere: the window of (1, 1) matches the
    // pattern only after one clockwise rotation.
    let g = grid_of(vec![vec![REVEALED, WALL, WALL]; 3]);
    let dict = straight_wall_dictionary();
    assert_eq!(g.determine_sprite_for(1, 1, &dict), Ok(("straight_wall".to_string(), 90)));
}

#[test]
fn unrotated_match_gives_zero_degrees() {
    let g = grid_of(vec![vec![REVEALED; 3], vec![WALL; 3], vec![WALL; 3]]);
    let dict = straight_wall_dictionary();
    assert_eq!(g.determine_sprite_for(1, 1, &dict), Ok(("straight_wall".to_string(), 0)));
}

#[test]
fn first_matching_entry_wins() {
    let g = grid_of(vec![vec![WALL]]);
    let mut dict = all_wall_dictionary();
    dict.push(([[Tile::Any; 3]; 3], "anything".to_string()));
    assert_eq!(g.determine_sprite_for(0, 0, &dict), Ok(("all_wall".to_string(), 0)));
    dict.reverse();
    assert_eq!(g.determine_sprite_for(0, 0, &dict), Ok(("anything".to_string(), 0)));
}

#[test]
fn missing_pattern_is_incomplete_dictionary() {
    let g = grid_of(vec![vec![WALL, REVEALED]]);
    assert_eq!(g.determine_sprite_for(0, 0, &all_wall_dictionary()), Err(GridError::IncompleteDictionary));
    assert_eq!(g.determine_sprite_for(0, 1, &all_wall_dictionary()), Ok(("all_wall".to_string(), 0)));
}

#[test]
fn sprite_outside_grid_is_out_of_bounds() {
    let g = grid_of(vec![vec![WALL]]);
    assert_eq!(g.determine_sprite_for(1, 0, &all_wall_dictionary()), Err(GridError::OutOfBounds));
    assert_eq!(g.determine_sprite_for(0, -1, &all_wall_dictionary()), Err(GridError::OutOfBounds));
}

#[test]
fn update_system_covers_whole_grid() {
    let g = grid_of(vec![vec![WALL, WALL], vec![WALL]]);
    let mut queue = TileUpdateQueue::of_grid(&g);
    assert_eq!(queue.len(), 3);
    let mut system = TileUpdateSystem;
    let updates = system.run(&mut queue, &g, &all_wall_dictionary());
    assert_eq!(queue.len(), 0);
    let cells: Vec<(i32, i32)> = updates.iter().map(|u| (u.x, u.y)).collect();
    assert_eq!(cells, vec![(0, 0), (0, 1), (1, 0)]);
    for u in &updates {
        assert_eq!(u.sprite, Ok(("all_wall".to_string(), 0)));
    }
}

#[test]
fn update_queue_keeps_order() {
    let g = grid_of(vec![vec![WALL, REVEALED]]);
    let mut queue = TileUpdateQueue::new();
    queue.push(0, 0);
    queue.push(0, 1);
    queue.push(4, 4);
    let updates = TileUpdateSystem.run(&mut queue, &g, &all_wall_dictionary());
    assert_eq!(updates.len(), 3);
    assert_eq!((updates[0].x, updates[0].y), (0, 0));
    assert_eq!(updates[0].sprite, Err(GridError::IncompleteDictionary));
    assert_eq!(updates[1].sprite, Ok(("all_wall".to_string(), 0)));
    assert_eq!(updates[2].sprite, Err(GridError::OutOfBounds));
}
