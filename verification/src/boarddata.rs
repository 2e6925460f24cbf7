use vstd::prelude::*;
use crate::fielddata::{CollisionFieldData, LightFieldData, PrebakedLightingData};
use crate::grids::{
    bool_grid_dims, bool_grid_map, collision_grid_dims, collision_grid_map, collision_grid_new,
    grid_dom_ok, grid_in_dims, light_grid_dims, light_grid_map, light_grid_new, prebaked_grid_dims,
    prebaked_grid_map, prebaked_grid_new, temp_grid_dims, temp_grid_map, temp_grid_new, Grid3,
};

verus! {

/// Largest accepted map extent per axis; keeps every per-tile sum far away
/// from `i64` overflow.
pub const MAP_AXIS_LIMIT: usize = 1024;

/// A pending rebuild request. Requests raised within one tick coalesce by
/// logical OR before a single rebuild pass runs.
#[derive(Clone, Copy, Debug, Default, PartialEq, Eq, Structural)]
pub struct BoardDataToRebuild {
    pub lighting: bool,
    pub collision: bool,
}

impl BoardDataToRebuild {
    /// Folds another request into this one: each flag ORs.
    pub fn merge(&mut self, other: BoardDataToRebuild)
        ensures
            final(self).lighting == (old(self).lighting || other.lighting),
            final(self).collision == (old(self).collision || other.collision),
    {
        if other.lighting {
            self.lighting = true;
        }
        if other.collision {
            self.collision = true;
        }
    }
}

/// The authoritative per-level board state: per-tile collision flags,
/// temperatures, the light field, the immutable static bake, and the
/// global exposure scalar. One instance lives per loaded level.
pub struct BoardData {
    pub map_size: (usize, usize, usize),
    pub collision_field: Grid3<CollisionFieldData>,
    pub temperature_field: Grid3<i64>,
    pub light_field: Grid3<LightFieldData>,
    pub prebaked_lighting: Grid3<PrebakedLightingData>,
    /// Global exposure scalar in milli-units, derived from the average lux.
    pub exposure_lux: i64,
    /// Ambient temperature in milli-degrees; seeds new temperature tiles.
    pub ambient_temp: i64,
    /// Pending coalesced rebuild request flags.
    pub pending: BoardDataToRebuild,
}

impl BoardData {
    /// The map dimensions as mathematical integers.
    pub open spec fn dims(self) -> (int, int, int) {
        (self.map_size.0 as int, self.map_size.1 as int, self.map_size.2 as int)
    }

    /// Every grid matches `map_size`, covers exactly the in-bounds tiles,
    /// and the map extents stay within `MAP_AXIS_LIMIT`.
    pub open spec fn wf(self) -> bool {
        &&& 1 <= self.dims().0 <= MAP_AXIS_LIMIT
        &&& 1 <= self.dims().1 <= MAP_AXIS_LIMIT
        &&& 1 <= self.dims().2 <= MAP_AXIS_LIMIT
        &&& collision_grid_dims(self.collision_field) == self.dims()
        &&& temp_grid_dims(self.temperature_field) == self.dims()
        &&& light_grid_dims(self.light_field) == self.dims()
        &&& prebaked_grid_dims(self.prebaked_lighting) == self.dims()
        &&& grid_dom_ok(self.dims(), collision_grid_map(self.collision_field))
        &&& grid_dom_ok(self.dims(), temp_grid_map(self.temperature_field))
        &&& grid_dom_ok(self.dims(), light_grid_map(self.light_field))
        &&& grid_dom_ok(self.dims(), prebaked_grid_map(self.prebaked_lighting))
    }

    /// A fresh board for a level of the given size: everything free,
    /// dark, at ambient temperature, with an empty bake and no pending
    /// rebuild request.
    pub fn new(map_size: (usize, usize, usize), ambient_temp: i64) -> (r: BoardData)
        requires
            1 <= map_size.0 <= MAP_AXIS_LIMIT,
            1 <= map_size.1 <= MAP_AXIS_LIMIT,
            1 <= map_size.2 <= MAP_AXIS_LIMIT,
        ensures
            r.wf(),
            r.map_size == map_size,
            r.ambient_temp == ambient_temp,
            r.exposure_lux == crate::MILLI,
            r.pending == (BoardDataToRebuild { lighting: false, collision: false }),
            forall|p: (int, int, int)|
                grid_in_dims(r.dims(), p.0, p.1, p.2) ==> collision_grid_map(r.collision_field)[p]
                    == CollisionFieldData::free_spec(),
            forall|p: (int, int, int)|
                grid_in_dims(r.dims(), p.0, p.1, p.2) ==> light_grid_map(r.light_field)[p]
                    == LightFieldData::dark_spec(),
            forall|p: (int, int, int)|
                grid_in_dims(r.dims(), p.0, p.1, p.2) ==> temp_grid_map(r.temperature_field)[p]
                    == ambient_temp,
            forall|p: (int, int, int)|
                grid_in_dims(r.dims(), p.0, p.1, p.2) ==> prebaked_grid_map(r.prebaked_lighting)[p]
                    == PrebakedLightingData::empty_spec(),
    {
        let (sx, sy, sz) = map_size;
        BoardData {
            map_size,
            collision_field: collision_grid_new(sx, sy, sz, CollisionFieldData::free()),
            temperature_field: temp_grid_new(sx, sy, sz, ambient_temp),
            light_field: light_grid_new(sx, sy, sz, LightFieldData::dark()),
            prebaked_lighting: prebaked_grid_new(sx, sy, sz, PrebakedLightingData::empty()),
            exposure_lux: crate::MILLI,
            ambient_temp,
            pending: BoardDataToRebuild { lighting: false, collision: false },
        }
    }

    /// Raises a rebuild request; it coalesces with whatever is pending and
    /// has no other effect.
    pub fn request_rebuild(&mut self, lighting: bool, collision: bool)
        ensures
            final(self).pending.lighting == (old(self).pending.lighting || lighting),
            final(self).pending.collision == (old(self).pending.collision || collision),
            *final(self) == (BoardData { pending: final(self).pending, ..*old(self) }),
    {
        self.pending.merge(BoardDataToRebuild { lighting, collision });
    }

    /// Takes the pending request, leaving none behind.
    pub fn drain_pending(&mut self) -> (r: BoardDataToRebuild)
        ensures
            r == old(self).pending,
            final(self).pending == (BoardDataToRebuild { lighting: false, collision: false }),
            *final(self) == (BoardData { pending: final(self).pending, ..*old(self) }),
    {
        let r = self.pending;
        self.pending = BoardDataToRebuild { lighting: false, collision: false };
        r
    }
}

} // verus!

verus! {

impl BoardData {
    /// The light stored for a tile, or `None` outside the board; consumers
    /// read this every frame without triggering recomputation.
    pub fn light_at(&self, pos: &crate::boardposition::BoardPosition) -> (r: Option<
        LightFieldData,
    >)
        requires
            self.wf(),
        ensures
            r.is_some() <==> grid_in_dims(self.dims(), pos.x as int, pos.y as int, pos.z as int),
            r.is_some() ==> r->0 == light_grid_map(self.light_field)[
                (pos.x as int, pos.y as int, pos.z as int)],
    {
        match pos.ndidx_checked(self.map_size) {
            Some(idx) => Some(crate::grids::light_grid_get(&self.light_field, idx.0, idx.1, idx.2)),
            None => None,
        }
    }

    /// The temperature stored for a tile in milli-degrees, or the ambient
    /// value outside the board.
    pub fn temperature_at(&self, pos: &crate::boardposition::BoardPosition) -> (r: i64)
        requires
            self.wf(),
        ensures
            grid_in_dims(self.dims(), pos.x as int, pos.y as int, pos.z as int) ==> r
                == temp_grid_map(self.temperature_field)[
                (pos.x as int, pos.y as int, pos.z as int)],
            !grid_in_dims(self.dims(), pos.x as int, pos.y as int, pos.z as int) ==> r
                == self.ambient_temp,
    {
        match pos.ndidx_checked(self.map_size) {
            Some(idx) => crate::grids::temp_grid_get(&self.temperature_field, idx.0, idx.1, idx.2),
            None => self.ambient_temp,
        }
    }

    /// The collision flags stored for a tile, or the free default outside
    /// the board: absence means free.
    pub fn collision_at(&self, pos: &crate::boardposition::BoardPosition) -> (r:
        CollisionFieldData)
        requires
            self.wf(),
        ensures
            grid_in_dims(self.dims(), pos.x as int, pos.y as int, pos.z as int) ==> r
                == collision_grid_map(self.collision_field)[
                (pos.x as int, pos.y as int, pos.z as int)],
            !grid_in_dims(self.dims(), pos.x as int, pos.y as int, pos.z as int) ==> r
                == CollisionFieldData::free_spec(),
    {
        match pos.ndidx_checked(self.map_size) {
            Some(idx) => crate::grids::collision_grid_get(
                &self.collision_field,
                idx.0,
                idx.1,
                idx.2,
            ),
            None => CollisionFieldData::free(),
        }
    }
}

} // verus!
