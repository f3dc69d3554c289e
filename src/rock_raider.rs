use vstd::prelude::*;

verus! {

/// Tag of the small moving people that the player controls.
pub struct RockRaider;

impl RockRaider {
    /// Name of the assets (mesh and texture) that represent a rock raider.
    pub fn asset_name() -> (r: &'static str)
        ensures
            r@ == "/rock_raider/default"@,
    {
        "/rock_raider/default"
    }
}

} // verus!
