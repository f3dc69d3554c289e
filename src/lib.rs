//! Grid simulation engine of a cave-exploration game: the tile model, the
//! cave grid, the neighbourhood pattern matcher (autotiling), the timed reveal
//! cascade and path finding over the revealed ground.

pub mod cascade;
pub mod grid;
pub mod movement;
pub mod path;
pub mod pattern;
pub mod rock_raider;
pub mod tile;
pub mod tile_update;
pub mod window;

pub use cascade::{GroundRevealSystem, RevealEntry, REVEAL_DELAY};
pub use grid::{GridError, LevelGrid};
pub use movement::MovementSystem;
pub use path::Path;
pub use pattern::TilePatternMap;
pub use rock_raider::RockRaider;
pub use tile::Tile;
pub use tile_update::{TileUpdate, TileUpdateQueue, TileUpdateSystem};
pub use window::rotate_3x3;
