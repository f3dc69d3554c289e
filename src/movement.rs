use vstd::prelude::*;

use crate::path::Path;

verus! {

/// Advances actors along their paths. Moving and turning the actor is done by
/// the caller; this decides what becomes of the path after each move.
pub struct MovementSystem;

impl MovementSystem {
    /// Called after the actor moved towards the front cell of `path`:
    /// `reached_waypoint` tells whether it came closer to that cell than one
    /// tick's movement. A reached cell is dropped from the front. Returns
    /// whether the path is used up, so that the actor lets go of it.
    pub fn update_path(&self, path: &mut Path, reached_waypoint: bool) -> (detach: bool)
        ensures
            final(path)@ == (if reached_waypoint && old(path)@.len() > 0 {
                old(path)@.drop_first()
            } else {
                old(path)@
            }),
            detach == (final(path)@.len() == 0),
    {
        if reached_waypoint {
            path.reach_waypoint();
        }
        path.is_empty()
    }
}

} // verus!
