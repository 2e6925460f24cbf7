use vstd::prelude::*;
use crate::fielddata::{CollisionFieldData, LightFieldData, PrebakedLightingData};

verus! {

/// Dense 3-D tile grid. The storage is an `ndarray::Array3`, which Verus
/// does not read; everything the proofs know about a grid comes from the
/// contracts of the accessors below, stated over `*_grid_map` / `*_grid_dims`.
#[verifier::external_body]
#[verifier::reject_recursive_types(T)]
pub struct Grid3<T> {
    inner: ndarray::Array3<T>,
}

/// True when `(x, y, z)` lies inside a grid of dimensions `dims`.
pub open spec fn grid_in_dims(dims: (int, int, int), x: int, y: int, z: int) -> bool {
    0 <= x < dims.0 && 0 <= y < dims.1 && 0 <= z < dims.2
}

/// The total map of a freshly filled grid: every in-dims index holds `fill`.
pub open spec fn grid_fill_map<T>(dims: (int, int, int), fill: T) -> Map<(int, int, int), T> {
    Map::new(|p: (int, int, int)| grid_in_dims(dims, p.0, p.1, p.2), |p: (int, int, int)| fill)
}

/// A grid is well formed when its dimensions are modest machine sizes and
/// its contents cover exactly the in-dims indices.
pub open spec fn grid_dom_ok<T>(dims: (int, int, int), m: Map<(int, int, int), T>) -> bool {
    &&& 0 <= dims.0 <= 4096 && 0 <= dims.1 <= 4096 && 0 <= dims.2 <= 4096
    &&& forall|p: (int, int, int)| m.dom().contains(p) <==> grid_in_dims(dims, p.0, p.1, p.2)
}

/// What a light grid holds at each in-dims index.
pub uninterp spec fn light_grid_map(g: Grid3<LightFieldData>) -> Map<(int, int, int), LightFieldData>;

/// The dimensions a light grid was created with.
pub uninterp spec fn light_grid_dims(g: Grid3<LightFieldData>) -> (int, int, int);

/// What a collision grid holds at each in-dims index.
pub uninterp spec fn collision_grid_map(g: Grid3<CollisionFieldData>) -> Map<
    (int, int, int),
    CollisionFieldData,
>;

/// The dimensions a collision grid was created with.
pub uninterp spec fn collision_grid_dims(g: Grid3<CollisionFieldData>) -> (int, int, int);

/// What a bake grid holds at each in-dims index.
pub uninterp spec fn prebaked_grid_map(g: Grid3<PrebakedLightingData>) -> Map<
    (int, int, int),
    PrebakedLightingData,
>;

/// The dimensions a bake grid was created with.
pub uninterp spec fn prebaked_grid_dims(g: Grid3<PrebakedLightingData>) -> (int, int, int);

/// What a visited-marks grid holds at each in-dims index.
pub uninterp spec fn bool_grid_map(g: Grid3<bool>) -> Map<(int, int, int), bool>;

/// The dimensions a visited-marks grid was created with.
pub uninterp spec fn bool_grid_dims(g: Grid3<bool>) -> (int, int, int);

/// What a temperature grid holds at each in-dims index, in milli-degrees.
pub uninterp spec fn temp_grid_map(g: Grid3<i64>) -> Map<(int, int, int), i64>;

/// The dimensions a temperature grid was created with.
pub uninterp spec fn temp_grid_dims(g: Grid3<i64>) -> (int, int, int);

/// Relies on `ndarray::Array3::from_elem`: a dense array of the given shape
/// with `fill` at every index.
#[verifier::external_body]
pub(crate) fn light_grid_new(sx: usize, sy: usize, sz: usize, fill: LightFieldData) -> (g: Grid3<
    LightFieldData,
>)
    requires
        sx <= 4096 && sy <= 4096 && sz <= 4096,
    ensures
        light_grid_dims(g) == (sx as int, sy as int, sz as int),
        light_grid_map(g) == grid_fill_map((sx as int, sy as int, sz as int), fill),
{
    Grid3 { inner: ndarray::Array3::from_elem((sx, sy, sz), fill) }
}

/// Relies on `ndarray`'s `Index` impl: the element at an in-bounds index.
#[verifier::external_body]
pub(crate) fn light_grid_get(g: &Grid3<LightFieldData>, x: usize, y: usize, z: usize) -> (r:
    LightFieldData)
    requires
        grid_in_dims(light_grid_dims(*g), x as int, y as int, z as int),
    ensures
        r == light_grid_map(*g)[(x as int, y as int, z as int)],
{
    g.inner[(x, y, z)]
}

/// Relies on `ndarray`'s `IndexMut` impl: overwrites one in-bounds element.
#[verifier::external_body]
pub(crate) fn light_grid_set(
    g: &mut Grid3<LightFieldData>,
    x: usize,
    y: usize,
    z: usize,
    v: LightFieldData,
)
    requires
        grid_in_dims(light_grid_dims(*old(g)), x as int, y as int, z as int),
    ensures
        light_grid_dims(*final(g)) == light_grid_dims(*old(g)),
        light_grid_map(*final(g)) == light_grid_map(*old(g)).insert(
            (x as int, y as int, z as int),
            v,
        ),
{
    g.inner[(x, y, z)] = v;
}

/// Relies on `ndarray::ArrayBase::clone` (via the derived `Clone`): an
/// identical copy of the grid.
#[verifier::external_body]
pub(crate) fn light_grid_clone(g: &Grid3<LightFieldData>) -> (r: Grid3<LightFieldData>)
    ensures
        light_grid_dims(r) == light_grid_dims(*g),
        light_grid_map(r) == light_grid_map(*g),
{
    Grid3 { inner: g.inner.clone() }
}

/// Relies on `ndarray::Array3::from_elem`: a dense array of the given shape
/// with `fill` at every index.
#[verifier::external_body]
pub(crate) fn collision_grid_new(sx: usize, sy: usize, sz: usize, fill: CollisionFieldData) -> (g:
    Grid3<CollisionFieldData>)
    requires
        sx <= 4096 && sy <= 4096 && sz <= 4096,
    ensures
        collision_grid_dims(g) == (sx as int, sy as int, sz as int),
        collision_grid_map(g) == grid_fill_map((sx as int, sy as int, sz as int), fill),
{
    Grid3 { inner: ndarray::Array3::from_elem((sx, sy, sz), fill) }
}

/// Relies on `ndarray`'s `Index` impl: the element at an in-bounds index.
#[verifier::external_body]
pub(crate) fn collision_grid_get(g: &Grid3<CollisionFieldData>, x: usize, y: usize, z: usize) -> (r:
    CollisionFieldData)
    requires
        grid_in_dims(collision_grid_dims(*g), x as int, y as int, z as int),
    ensures
        r == collision_grid_map(*g)[(x as int, y as int, z as int)],
{
    g.inner[(x, y, z)]
}

/// Relies on `ndarray`'s `IndexMut` impl: overwrites one in-bounds element.
#[verifier::external_body]
pub(crate) fn collision_grid_set(
    g: &mut Grid3<CollisionFieldData>,
    x: usize,
    y: usize,
    z: usize,
    v: CollisionFieldData,
)
    requires
        grid_in_dims(collision_grid_dims(*old(g)), x as int, y as int, z as int),
    ensures
        collision_grid_dims(*final(g)) == collision_grid_dims(*old(g)),
        collision_grid_map(*final(g)) == collision_grid_map(*old(g)).insert(
            (x as int, y as int, z as int),
            v,
        ),
{
    g.inner[(x, y, z)] = v;
}

/// Relies on `ndarray::Array3::from_elem`: a dense array of the given shape
/// with `fill` at every index.
#[verifier::external_body]
pub(crate) fn prebaked_grid_new(sx: usize, sy: usize, sz: usize, fill: PrebakedLightingData) -> (g:
    Grid3<PrebakedLightingData>)
    requires
        sx <= 4096 && sy <= 4096 && sz <= 4096,
    ensures
        prebaked_grid_dims(g) == (sx as int, sy as int, sz as int),
        prebaked_grid_map(g) == grid_fill_map((sx as int, sy as int, sz as int), fill),
{
    Grid3 { inner: ndarray::Array3::from_elem((sx, sy, sz), fill) }
}

/// Relies on `ndarray`'s `Index` impl: the element at an in-bounds index.
#[verifier::external_body]
pub(crate) fn prebaked_grid_get(g: &Grid3<PrebakedLightingData>, x: usize, y: usize, z: usize) -> (r:
    PrebakedLightingData)
    requires
        grid_in_dims(prebaked_grid_dims(*g), x as int, y as int, z as int),
    ensures
        r == prebaked_grid_map(*g)[(x as int, y as int, z as int)],
{
    g.inner[(x, y, z)]
}

/// Relies on `ndarray`'s `IndexMut` impl: overwrites one in-bounds element.
#[verifier::external_body]
pub(crate) fn prebaked_grid_set(
    g: &mut Grid3<PrebakedLightingData>,
    x: usize,
    y: usize,
    z: usize,
    v: PrebakedLightingData,
)
    requires
        grid_in_dims(prebaked_grid_dims(*old(g)), x as int, y as int, z as int),
    ensures
        prebaked_grid_dims(*final(g)) == prebaked_grid_dims(*old(g)),
        prebaked_grid_map(*final(g)) == prebaked_grid_map(*old(g)).insert(
            (x as int, y as int, z as int),
            v,
        ),
{
    g.inner[(x, y, z)] = v;
}

/// Relies on `ndarray::Array3::from_elem`: a dense array of the given shape
/// with `fill` at every index.
#[verifier::external_body]
pub(crate) fn bool_grid_new(sx: usize, sy: usize, sz: usize, fill: bool) -> (g: Grid3<bool>)
    requires
        sx <= 4096 && sy <= 4096 && sz <= 4096,
    ensures
        bool_grid_dims(g) == (sx as int, sy as int, sz as int),
        bool_grid_map(g) == grid_fill_map((sx as int, sy as int, sz as int), fill),
{
    Grid3 { inner: ndarray::Array3::from_elem((sx, sy, sz), fill) }
}

/// Relies on `ndarray`'s `Index` impl: the element at an in-bounds index.
#[verifier::external_body]
pub(crate) fn bool_grid_get(g: &Grid3<bool>, x: usize, y: usize, z: usize) -> (r: bool)
    requires
        grid_in_dims(bool_grid_dims(*g), x as int, y as int, z as int),
    ensures
        r == bool_grid_map(*g)[(x as int, y as int, z as int)],
{
    g.inner[(x, y, z)]
}

/// Relies on `ndarray`'s `IndexMut` impl: overwrites one in-bounds element.
#[verifier::external_body]
pub(crate) fn bool_grid_set(g: &mut Grid3<bool>, x: usize, y: usize, z: usize, v: bool)
    requires
        grid_in_dims(bool_grid_dims(*old(g)), x as int, y as int, z as int),
    ensures
        bool_grid_dims(*final(g)) == bool_grid_dims(*old(g)),
        bool_grid_map(*final(g)) == bool_grid_map(*old(g)).insert((x as int, y as int, z as int), v),
{
    g.inner[(x, y, z)] = v;
}

/// Relies on `ndarray::Array3::from_elem`: a dense array of the given shape
/// with `fill` at every index.
#[verifier::external_body]
pub(crate) fn temp_grid_new(sx: usize, sy: usize, sz: usize, fill: i64) -> (g: Grid3<i64>)
    requires
        sx <= 4096 && sy <= 4096 && sz <= 4096,
    ensures
        temp_grid_dims(g) == (sx as int, sy as int, sz as int),
        temp_grid_map(g) == grid_fill_map((sx as int, sy as int, sz as int), fill),
{
    Grid3 { inner: ndarray::Array3::from_elem((sx, sy, sz), fill) }
}

/// Relies on `ndarray`'s `Index` impl: the element at an in-bounds index.
#[verifier::external_body]
pub(crate) fn temp_grid_get(g: &Grid3<i64>, x: usize, y: usize, z: usize) -> (r: i64)
    requires
        grid_in_dims(temp_grid_dims(*g), x as int, y as int, z as int),
    ensures
        r == temp_grid_map(*g)[(x as int, y as int, z as int)],
{
    g.inner[(x, y, z)]
}

/// Relies on `ndarray`'s `IndexMut` impl: overwrites one in-bounds element.
#[verifier::external_body]
pub(crate) fn temp_grid_set(g: &mut Grid3<i64>, x: usize, y: usize, z: usize, v: i64)
    requires
        grid_in_dims(temp_grid_dims(*old(g)), x as int, y as int, z as int),
    ensures
        temp_grid_dims(*final(g)) == temp_grid_dims(*old(g)),
        temp_grid_map(*final(g)) == temp_grid_map(*old(g)).insert((x as int, y as int, z as int), v),
{
    g.inner[(x, y, z)] = v;
}

} // verus!
