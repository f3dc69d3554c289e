use rockraiders::{GroundRevealSystem, LevelGrid, Tile, TilePatternMap, REVEAL_DELAY};

const WALL: Tile = Tile::Wall { breaks: false, ore: 0 };
const CONCEALED: Tile = Tile::Ground { concealed: true };
const REVEALED: Tile = Tile::Ground { concealed: false };

fn grid_of(rows: Vec<Vec<Tile>>) -> LevelGrid {
    LevelGrid::from_grid(rows).unwrap()
}

fn any_dictionary() -> TilePatternMap {
    vec![([[Tile::Any; 3]; 3], "any".to_string())]
}

fn revealed_count(g: &LevelGrid) -> usize {
    let mut n = 0;
    for x in 0..g.x_len() {
        for y in 0..g.row_len(x) {
            if g.get(x as i32, y as i32) == Some(REVEALED) {
                n += 1;
            }
        }
    }
    n
}

#[test]
fn corridor_reveals_one_ring_per_delay() {
    let mut g = grid_of(vec![vec![CONCEALED; 4]]);
    let dict = any_dictionary();
    let mut system = GroundRevealSystem::new();
    let t0: u64 = 1000;
    system.schedule_reveal(0, 0, t0);

    system.tick(t0 - 1, &mut g, &dict);
    assert_eq!(revealed_count(&g), 0);

    for k in 0..4u64 {
        let at = t0 + k * REVEAL_DELAY;
        system.tick(at - 1, &mut g, &dict);
        assert_eq!(revealed_count(&g), k as usize);
        system.tick(at, &mut g, &dict);
        assert_eq!(revealed_count(&g), k as usize + 1);
        assert_eq!(g.get(0, k as i32), Some(REVEALED));
    }
    assert_eq!(system.pending(), 0);
}

#[test]
fn first_reveal_refreshes_the_cell_itself() {
    let mut g = grid_of(vec![vec![CONCEALED; 4]]);
    let mut system = GroundRevealSystem::new();
    system.schedule_reveal(0, 0, 10);
    let updates = system.tick(10, &mut g, &any_dictionary());
    assert_eq!(updates.len(), 1);
    assert_eq!((updates[0].x, updates[0].y), (0, 0));
    assert_eq!(updates[0].sprite, Ok(("any".to_string(), 0)));
    assert_eq!(system.pending(), 1);
}

#[test]
fn reveal_refreshes_shown_neighbors() {
    let mut g = grid_of(vec![
        vec![WALL, REVEALED, CONCEALED],
        vec![CONCEALED, CONCEALED, WALL],
        vec![WALL, WALL, CONCEALED],
    ]);
    let mut system = GroundRevealSystem::new();
    system.schedule_reveal(1, 1, 0);
    let updates = system.tick(0, &mut g, &any_dictionary());
    let cells: Vec<(i32, i32)> = updates.iter().map(|u| (u.x, u.y)).collect();
    // direct (1,2) wall, (1,0) scheduled, (2,1) wall, (0,1) revealed;
    // diagonals (2,0) wall, (2,2) concealed, (0,2) concealed, (0,0) wall; then the cell.
    assert_eq!(cells, vec![(1, 2), (2, 1), (0, 1), (2, 0), (0, 0), (1, 1)]);
    assert_eq!(system.pending(), 1);
    assert_eq!(g.get(1, 0), Some(CONCEALED));
    system.tick(REVEAL_DELAY, &mut g, &any_dictionary());
    assert_eq!(g.get(1, 0), Some(REVEALED));
}

#[test]
fn reveal_of_wall_stops_only_that_branch() {
    let mut g = grid_of(vec![vec![WALL, CONCEALED, CONCEALED]]);
    let mut system = GroundRevealSystem::new();
    system.schedule_reveal(0, 0, 5);
    system.schedule_reveal(0, 2, 5);
    let updates = system.tick(5, &mut g, &any_dictionary());
    assert_eq!(g.get(0, 0), Some(WALL));
    assert_eq!(g.get(0, 2), Some(REVEALED));
    assert_eq!(g.get(0, 1), Some(CONCEALED));
    assert_eq!(updates.len(), 1);
    assert_eq!(system.pending(), 1);
}

#[test]
fn repeated_reveal_is_dropped() {
    let mut g = grid_of(vec![vec![CONCEALED]]);
    let mut system = GroundRevealSystem::new();
    system.schedule_reveal(0, 0, 1);
    system.schedule_reveal(0, 0, 2);
    system.schedule_reveal(7, 7, 3);
    assert_eq!(system.pending(), 3);
    let updates = system.tick(3, &mut g, &any_dictionary());
    assert_eq!(updates.len(), 1);
    assert_eq!(system.pending(), 0);
    assert_eq!(g.get(0, 0), Some(REVEALED));
}

#[test]
fn entries_are_taken_earliest_first() {
    let mut g = grid_of(vec![vec![CONCEALED, WALL, CONCEALED]]);
    let mut system = GroundRevealSystem::new();
    system.schedule_reveal(0, 2, 20);
    system.schedule_reveal(0, 0, 10);
    let updates = system.tick(15, &mut g, &any_dictionary());
    assert_eq!(g.get(0, 0), Some(REVEALED));
    assert_eq!(g.get(0, 2), Some(CONCEALED));
    assert_eq!(updates.last().map(|u| (u.x, u.y)), Some((0, 0)));
    let updates = system.tick(20, &mut g, &any_dictionary());
    assert_eq!(g.get(0, 2), Some(REVEALED));
    assert_eq!(updates.last().map(|u| (u.x, u.y)), Some((0, 2)));
}
