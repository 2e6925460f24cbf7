use vstd::prelude::*;

verus! {

/// Extra per-tile light channels beyond visible lux, in fixed-point
/// milli-units. They accumulate additively, like visible lux.
#[derive(Clone, Copy, Debug, PartialEq, Eq, Structural)]
pub struct LightData {
    pub infrared: i64,
    pub ultraviolet: i64,
    pub red: i64,
}

impl LightData {
    /// The all-zero channel set, used for tiles with no contribution.
    pub fn zero() -> (r: LightData)
        ensures
            r == (LightData { infrared: 0, ultraviolet: 0, red: 0 }),
    {
        LightData { infrared: 0, ultraviolet: 0, red: 0 }
    }

    /// Component-wise sum of two channel sets.
    pub fn add(&self, other: &LightData) -> (r: LightData)
        requires
            self.infrared + other.infrared <= i64::MAX,
            self.ultraviolet + other.ultraviolet <= i64::MAX,
            self.red + other.red <= i64::MAX,
            i64::MIN <= self.infrared + other.infrared,
            i64::MIN <= self.ultraviolet + other.ultraviolet,
            i64::MIN <= self.red + other.red,
        ensures
            r.infrared == self.infrared + other.infrared,
            r.ultraviolet == self.ultraviolet + other.ultraviolet,
            r.red == self.red + other.red,
    {
        LightData {
            infrared: self.infrared + other.infrared,
            ultraviolet: self.ultraviolet + other.ultraviolet,
            red: self.red + other.red,
        }
    }
}

/// Per-tile light state, all quantities in fixed-point milli-units:
/// `lux` accumulates additively from all visible sources,
/// `transmissivity` is multiplicative across overlapping occluders and is
/// kept strictly above zero, and `color` is the intensity-weighted blend
/// of the contributing sources.
#[derive(Clone, Copy, Debug, PartialEq, Eq)]
pub struct LightFieldData {
    pub lux: i64,
    pub transmissivity: i64,
    pub color: (i64, i64, i64),
    pub additional: LightData,
}

impl LightFieldData {
    /// The default tile state: dark, fully transparent, white.
    pub fn dark() -> (r: LightFieldData)
        ensures
            r == LightFieldData::dark_spec(),
    {
        LightFieldData {
            lux: 0,
            transmissivity: crate::MILLI,
            color: (crate::MILLI, crate::MILLI, crate::MILLI),
            additional: LightData { infrared: 0, ultraviolet: 0, red: 0 },
        }
    }

    /// What `dark()` returns: zero lux, unit transmissivity, white color.
    pub open spec fn dark_spec() -> LightFieldData {
        LightFieldData {
            lux: 0,
            transmissivity: crate::MILLI as i64,
            color: (crate::MILLI as i64, crate::MILLI as i64, crate::MILLI as i64),
            additional: LightData { infrared: 0, ultraviolet: 0, red: 0 },
        }
    }
}

/// Per-tile collision and occlusion flags. A tile with no occupying entity
/// defaults to fully free and see-through (absence means free).
#[derive(Clone, Copy, Debug, PartialEq, Eq, Structural)]
pub struct CollisionFieldData {
    pub player_free: bool,
    pub ghost_free: bool,
    pub see_through: bool,
}

impl CollisionFieldData {
    /// What `free()` returns: fully free and see-through.
    pub open spec fn free_spec() -> CollisionFieldData {
        CollisionFieldData { player_free: true, ghost_free: true, see_through: true }
    }

    /// The default entry for an unoccupied tile: fully free and see-through.
    pub fn free() -> (r: CollisionFieldData)
        ensures
            r == CollisionFieldData::free_spec(),
    {
        CollisionFieldData { player_free: true, ghost_free: true, see_through: true }
    }
}

/// The baked light carried by one tile: which static source produced it
/// (if any), and its lux and color in milli-units.
#[derive(Clone, Copy, Debug, PartialEq, Eq)]
pub struct LightInfo {
    pub source_id: Option<u32>,
    pub lux: i64,
    pub color: (i64, i64, i64),
}

impl LightInfo {
    /// The empty entry: no source, no light, white color.
    pub fn none() -> (r: LightInfo)
        ensures
            r == (LightInfo {
                source_id: None,
                lux: 0,
                color: (crate::MILLI as i64, crate::MILLI as i64, crate::MILLI as i64),
            }),
    {
        LightInfo { source_id: None, lux: 0, color: (crate::MILLI, crate::MILLI, crate::MILLI) }
    }
}

/// Precomputed lighting for a single tile of the static bake.
///
/// `is_wave_edge` marks a tile where the baked propagation wavefront was
/// stopped by an occluder that may later open; runtime propagation resumes
/// from such tiles when a nearby gate opens.
#[derive(Clone, Copy, Debug, PartialEq, Eq)]
pub struct PrebakedLightingData {
    pub light_info: LightInfo,
    pub is_wave_edge: bool,
}

impl PrebakedLightingData {
    /// What `empty()` returns: no source, no light, not a wave edge.
    pub open spec fn empty_spec() -> PrebakedLightingData {
        PrebakedLightingData {
            light_info: LightInfo {
                source_id: None,
                lux: 0,
                color: (crate::MILLI as i64, crate::MILLI as i64, crate::MILLI as i64),
            },
            is_wave_edge: false,
        }
    }

    /// The empty entry used for freshly allocated bake grids.
    pub fn empty() -> (r: PrebakedLightingData)
        ensures
            r == PrebakedLightingData::empty_spec(),
    {
        PrebakedLightingData { light_info: LightInfo::none(), is_wave_edge: false }
    }
}

/// General metadata recorded beside the bake to speed up light rebuilds:
/// each static source's entity id and its tile index.
#[derive(Clone, Debug, PartialEq, Eq)]
pub struct PrebakedMetadata {
    pub light_sources: Vec<(u64, (usize, usize, usize))>,
}

impl PrebakedMetadata {
    /// Metadata with no recorded sources.
    pub fn new() -> (r: PrebakedMetadata)
        ensures
            r.light_sources@.len() == 0,
    {
        PrebakedMetadata { light_sources: Vec::new() }
    }
}

} // verus!
