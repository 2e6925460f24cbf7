use vstd::prelude::*;
use vstd::arithmetic::div_mod::lemma_fundamental_div_mod_converse;
use crate::position::Position;

verus! {

/// Largest coordinate magnitude the grid helpers accept; keeps all the
/// neighbor arithmetic far away from `i64` overflow.
pub const COORD_LIMIT: i64 = 1000000000;

/// Discrete 3-D tile coordinate; the identity key for all per-tile data.
#[derive(Clone, Copy, Debug, Default, PartialEq, Eq, Hash, Structural)]
pub struct BoardPosition {
    pub x: i64,
    pub y: i64,
    pub z: i64,
}

/// The tile that element `k` of a row-scan of the rectangle
/// `[x1..][y1..y1+side)` at height `z` denotes: `x` varies slowest,
/// `y` fastest, exactly as the neighbor buffers fill.
pub open spec fn rect_tile(x1: int, y1: int, side_y: int, z: int, k: int) -> BoardPosition {
    BoardPosition { x: (x1 + k / side_y) as i64, y: (y1 + k % side_y) as i64, z: z as i64 }
}

impl BoardPosition {
    /// Builds a position from a dense-array index triple.
    pub fn from_ndidx(pos: (usize, usize, usize)) -> (r: Self)
        requires
            pos.0 <= i64::MAX,
            pos.1 <= i64::MAX,
            pos.2 <= i64::MAX,
        ensures
            r.x == pos.0 && r.y == pos.1 && r.z == pos.2,
    {
        Self { x: pos.0 as i64, y: pos.1 as i64, z: pos.2 as i64 }
    }

    /// The dense-array index triple of a non-negative position.
    pub fn ndidx(&self) -> (r: (usize, usize, usize))
        requires
            0 <= self.x <= usize::MAX,
            0 <= self.y <= usize::MAX,
            0 <= self.z <= usize::MAX,
        ensures
            r.0 == self.x && r.1 == self.y && r.2 == self.z,
    {
        (self.x as usize, self.y as usize, self.z as usize)
    }

    /// The dense-array index triple, or `None` when the position lies
    /// outside the given map bounds.
    pub fn ndidx_checked(&self, map_size: (usize, usize, usize)) -> (r: Option<
        (usize, usize, usize),
    >)
        requires
            map_size.0 <= i64::MAX,
            map_size.1 <= i64::MAX,
            map_size.2 <= i64::MAX,
        ensures
            r.is_some() <==> (0 <= self.x < map_size.0 && 0 <= self.y < map_size.1 && 0 <= self.z
                < map_size.2),
            r.is_some() ==> r->0 == (self.x as usize, self.y as usize, self.z as usize),
    {
        if self.x < 0 || self.x >= map_size.0 as i64 || self.y < 0 || self.y >= map_size.1 as i64
            || self.z < 0 || self.z >= map_size.2 as i64 {
            None
        } else {
            Some((self.x as usize, self.y as usize, self.z as usize))
        }
    }

    /// The continuous position of this tile's origin corner, in milli-units.
    pub fn to_position(&self) -> (r: Position)
        requires
            -COORD_LIMIT <= self.x <= COORD_LIMIT,
            -COORD_LIMIT <= self.y <= COORD_LIMIT,
            -COORD_LIMIT <= self.z <= COORD_LIMIT,
        ensures
            r.x == self.x * crate::MILLI,
            r.y == self.y * crate::MILLI,
            r.z == self.z * crate::MILLI,
            r.global_z == 0,
    {
        Position { x: self.x * 1000, y: self.y * 1000, z: self.z * 1000, global_z: 0 }
    }

    /// The continuous position of this tile's center, in milli-units.
    pub fn to_position_center(&self) -> (r: Position)
        requires
            -COORD_LIMIT <= self.x <= COORD_LIMIT,
            -COORD_LIMIT <= self.y <= COORD_LIMIT,
            -COORD_LIMIT <= self.z <= COORD_LIMIT,
        ensures
            r.x == self.x * crate::MILLI + 500,
            r.y == self.y * crate::MILLI + 500,
            r.z == self.z * crate::MILLI,
            r.global_z == 0,
    {
        Position { x: self.x * 1000 + 500, y: self.y * 1000 + 500, z: self.z * 1000, global_z: 0 }
    }

    /// The tile one step in negative `x`, clamped at the map edge.
    pub fn left(&self) -> (r: Self)
        ensures
            r.x == if self.x - 1 > 0 { self.x - 1 } else { 0 },
            r.y == self.y && r.z == self.z,
    {
        Self { x: if self.x >= 1 { self.x - 1 } else { 0 }, y: self.y, z: self.z }
    }

    /// The tile one step in positive `x`.
    pub fn right(&self) -> (r: Self)
        requires
            self.x < i64::MAX,
        ensures
            r.x == self.x + 1 && r.y == self.y && r.z == self.z,
    {
        Self { x: self.x + 1, y: self.y, z: self.z }
    }

    /// The tile one step in negative `y`, clamped at the map edge.
    pub fn top(&self) -> (r: Self)
        ensures
            r.y == if self.y - 1 > 0 { self.y - 1 } else { 0 },
            r.x == self.x && r.z == self.z,
    {
        Self { x: self.x, y: if self.y >= 1 { self.y - 1 } else { 0 }, z: self.z }
    }

    /// The tile one step in positive `y`.
    pub fn bottom(&self) -> (r: Self)
        requires
            self.y < i64::MAX,
        ensures
            r.y == self.y + 1 && r.x == self.x && r.z == self.z,
    {
        Self { x: self.x, y: self.y + 1, z: self.z }
    }

    /// Fills `out` with every tile of the square of Chebyshev radius `dist`
    /// around `self`, `x` slowest and `y` fastest, without any clamping.
    pub fn _xy_neighbors_buf(&self, dist: u32, out: &mut Vec<BoardPosition>)
        requires
            dist <= 10000,
            -COORD_LIMIT <= self.x <= COORD_LIMIT,
            -COORD_LIMIT <= self.y <= COORD_LIMIT,
        ensures
            final(out)@.len() == (2 * dist + 1) * (2 * dist + 1),
            forall|k: int|
                0 <= k < final(out)@.len() ==> final(out)@[k] == rect_tile(
                    self.x - dist,
                    self.y - dist,
                    2 * dist + 1,
                    self.z as int,
                    k,
                ),
    {
        out.clear();
        let d: i64 = dist as i64;
        let x1: i64 = self.x - d;
        let x2: i64 = self.x + d;
        let y1: i64 = self.y - d;
        let y2: i64 = self.y + d;
        push_rect_tiles(x1, x2, y1, y2, self.z, out);
    }

    /// Fills `out` with the tiles of the radius-`dist` square around `self`,
    /// with both axes clamped into `[min_x, max_x]` and `[min_y, max_y]`.
    pub fn _xy_neighbors_buf_clamped(
        &self,
        dist: u32,
        out: &mut Vec<BoardPosition>,
        min_x: i64,
        max_x: i64,
        min_y: i64,
        max_y: i64,
    )
        requires
            dist <= 10000,
            -COORD_LIMIT <= self.x <= COORD_LIMIT,
            -COORD_LIMIT <= self.y <= COORD_LIMIT,
            -COORD_LIMIT <= min_x <= max_x <= COORD_LIMIT,
            -COORD_LIMIT <= min_y <= max_y <= COORD_LIMIT,
        ensures
            final(out)@.len() == (clamp_spec(self.x + dist, min_x as int, max_x as int) - clamp_spec(
                self.x - dist,
                min_x as int,
                max_x as int,
            ) + 1) * (clamp_spec(self.y + dist, min_y as int, max_y as int) - clamp_spec(
                self.y - dist,
                min_y as int,
                max_y as int,
            ) + 1),
            forall|k: int|
                0 <= k < final(out)@.len() ==> final(out)@[k] == rect_tile(
                    clamp_spec(self.x - dist, min_x as int, max_x as int),
                    clamp_spec(self.y - dist, min_y as int, max_y as int),
                    clamp_spec(self.y + dist, min_y as int, max_y as int) - clamp_spec(
                        self.y - dist,
                        min_y as int,
                        max_y as int,
                    ) + 1,
                    self.z as int,
                    k,
                ),
            forall|k: int|
                0 <= k < final(out)@.len() ==> min_x <= (#[trigger] final(out)@[k]).x <= max_x
                    && min_y <= final(out)@[k].y <= max_y,
    {
        out.clear();
        let d: i64 = dist as i64;
        let x1: i64 = clamp_i64(self.x - d, min_x, max_x);
        let x2: i64 = clamp_i64(self.x + d, min_x, max_x);
        let y1: i64 = clamp_i64(self.y - d, min_y, max_y);
        let y2: i64 = clamp_i64(self.y + d, min_y, max_y);
        push_rect_tiles(x1, x2, y1, y2, self.z, out);
        proof {
            let side_y = y2 - y1 + 1;
            assert forall|k: int|
                0 <= k < final(out)@.len() implies min_x <= (#[trigger] final(out)@[k]).x <= max_x
                && min_y <= final(out)@[k].y <= max_y by {
                assert(final(out)@[k] == rect_tile(x1 as int, y1 as int, side_y as int, self.z as int, k));
                lemma_rect_index_bounds(x1 as int, x2 as int, y1 as int, y2 as int, k);
            }
        }
    }

    /// The radius-`dist` square around `self` as a fresh vector,
    /// `x` slowest and `y` fastest, without any clamping.
    pub fn _xy_neighbors_vec(&self, dist: u32) -> (out: Vec<BoardPosition>)
        requires
            dist <= 10000,
            -COORD_LIMIT <= self.x <= COORD_LIMIT,
            -COORD_LIMIT <= self.y <= COORD_LIMIT,
        ensures
            out@.len() == (2 * dist + 1) * (2 * dist + 1),
            forall|k: int|
                0 <= k < out@.len() ==> out@[k] == rect_tile(
                    self.x - dist,
                    self.y - dist,
                    2 * dist + 1,
                    self.z as int,
                    k,
                ),
    {
        let mut ret: Vec<BoardPosition> = Vec::new();
        self._xy_neighbors_buf(dist, &mut ret);
        ret
    }

    /// Lazy neighbor walk with a fixed generous clamp region.
    pub fn iter_xy_neighbors_nosize(&self, dist: i64) -> (r: NeighborsIterator)
        requires
            0 <= dist <= 10000,
            -COORD_LIMIT <= self.x <= COORD_LIMIT,
            -COORD_LIMIT <= self.y <= COORD_LIMIT,
        ensures
            r.wf(),
            r.min_x >= 0 && r.current_y >= 0,
            r.max_x <= 2048 && r.max_y <= 2048,
            r == NeighborsIterator::fresh_spec(*self, dist as int, (0, 0), (2048, 2048)),
    {
        NeighborsIterator::new(self, dist, (0, 0), (2048, 2048))
    }

    /// Lazy neighbor walk clamped into the map bounds (sizes, exclusive).
    pub fn iter_xy_neighbors(&self, dist: i64, map_size: (usize, usize)) -> (r: NeighborsIterator)
        requires
            0 <= dist <= 10000,
            -COORD_LIMIT <= self.x <= COORD_LIMIT,
            -COORD_LIMIT <= self.y <= COORD_LIMIT,
            map_size.0 <= COORD_LIMIT && map_size.1 <= COORD_LIMIT,
        ensures
            r.wf(),
            r.min_x >= 0 && r.current_y >= 0,
            r == NeighborsIterator::fresh_spec(
                *self,
                dist as int,
                (0, 0),
                (
                    if map_size.0 >= 1 { map_size.0 - 1 } else { 0 },
                    if map_size.1 >= 1 { map_size.1 - 1 } else { 0 },
                ),
            ),
    {
        let to_x: i64 = if map_size.0 >= 1 { map_size.0 as i64 - 1 } else { 0 };
        let to_y: i64 = if map_size.1 >= 1 { map_size.1 as i64 - 1 } else { 0 };
        NeighborsIterator::new(self, dist, (0, 0), (to_x, to_y))
    }

    /// Lazy neighbor walk clamped into an arbitrary rectangle.
    pub fn iter_xy_neighbors_clamped(&self, dist: i64, from: (i64, i64), to: (i64, i64)) -> (r:
        NeighborsIterator)
        requires
            0 <= dist <= 10000,
            -COORD_LIMIT <= self.x <= COORD_LIMIT,
            -COORD_LIMIT <= self.y <= COORD_LIMIT,
            -COORD_LIMIT <= from.0 <= COORD_LIMIT,
            -COORD_LIMIT <= from.1 <= COORD_LIMIT,
            -COORD_LIMIT <= to.0 <= COORD_LIMIT,
            -COORD_LIMIT <= to.1 <= COORD_LIMIT,
        ensures
            r.wf(),
            r.min_x >= from.0 && r.current_y >= from.1,
            r.max_x <= to.0 && r.max_y <= to.1,
            r == NeighborsIterator::fresh_spec(
                *self,
                dist as int,
                (from.0 as int, from.1 as int),
                (to.0 as int, to.1 as int),
            ),
    {
        NeighborsIterator::new(self, dist, from, to)
    }

    /// Manhattan distance between two tiles.
    pub fn distance_taxicab(&self, other: &Self) -> (r: i64)
        requires
            -COORD_LIMIT <= self.x <= COORD_LIMIT,
            -COORD_LIMIT <= self.y <= COORD_LIMIT,
            -COORD_LIMIT <= self.z <= COORD_LIMIT,
            -COORD_LIMIT <= other.x <= COORD_LIMIT,
            -COORD_LIMIT <= other.y <= COORD_LIMIT,
            -COORD_LIMIT <= other.z <= COORD_LIMIT,
        ensures
            r == abs_spec(self.x - other.x) + abs_spec(self.y - other.y) + abs_spec(
                self.z - other.z,
            ),
    {
        let dx: i64 = abs_i64(self.x - other.x);
        let dy: i64 = abs_i64(self.y - other.y);
        let dz: i64 = abs_i64(self.z - other.z);
        dx + dy + dz
    }
}

/// Mathematical absolute value of an integer.
pub open spec fn abs_spec(v: int) -> int {
    if v >= 0 {
        v
    } else {
        -v
    }
}

/// Absolute value, restricted away from the one overflowing input.
pub fn abs_i64(v: i64) -> (r: i64)
    requires
        v != i64::MIN,
    ensures
        r == abs_spec(v as int),
{
    if v >= 0 {
        v
    } else {
        -v
    }
}

/// `v` forced into the interval `[lo, hi]`.
pub open spec fn clamp_spec(v: int, lo: int, hi: int) -> int {
    if v < lo {
        lo
    } else if v > hi {
        hi
    } else {
        v
    }
}

/// Exec clamp matching `clamp_spec`.
pub fn clamp_i64(v: i64, lo: i64, hi: i64) -> (r: i64)
    requires
        lo <= hi,
    ensures
        r == clamp_spec(v as int, lo as int, hi as int),
{
    if v < lo {
        lo
    } else if v > hi {
        hi
    } else {
        v
    }
}

/// Every element of a row scan of `[x1..=x2] x [y1..=y2]` stays inside
/// that rectangle.
pub proof fn lemma_rect_index_bounds(x1: int, x2: int, y1: int, y2: int, k: int)
    requires
        x1 <= x2,
        y1 <= y2,
        0 <= k < (x2 - x1 + 1) * (y2 - y1 + 1),
    ensures
        x1 <= x1 + k / (y2 - y1 + 1) <= x2,
        y1 <= y1 + k % (y2 - y1 + 1) <= y2,
{
    let side_y = y2 - y1 + 1;
    let side_x = x2 - x1 + 1;
    vstd::arithmetic::div_mod::lemma_fundamental_div_mod(k, side_y);
    vstd::arithmetic::div_mod::lemma_mod_bound(k, side_y);
    vstd::arithmetic::div_mod::lemma_div_pos_is_pos(k, side_y);
    if k / side_y > side_x - 1 {
        assert(k / side_y >= side_x);
        assert(k >= (k / side_y) * side_y) by {
            vstd::arithmetic::div_mod::lemma_fundamental_div_mod(k, side_y);
            vstd::arithmetic::div_mod::lemma_mod_bound(k, side_y);
        }
        assert((k / side_y) * side_y >= side_x * side_y) by (nonlinear_arith)
            requires
                k / side_y >= side_x,
                side_y > 0,
        ;
        assert(false);
    }
}

/// Pushes every tile of `[x1..=x2] x [y1..=y2]` at height `z` onto `out`,
/// `x` slowest and `y` fastest; does nothing when a range is empty.
#[verifier::loop_isolation(false)]
fn push_rect_tiles(x1: i64, x2: i64, y1: i64, y2: i64, z: i64, out: &mut Vec<BoardPosition>)
    requires
        old(out)@.len() == 0,
        -2 * COORD_LIMIT <= x1 <= 2 * COORD_LIMIT,
        -2 * COORD_LIMIT <= x2 <= 2 * COORD_LIMIT,
        -2 * COORD_LIMIT <= y1 <= 2 * COORD_LIMIT,
        -2 * COORD_LIMIT <= y2 <= 2 * COORD_LIMIT,
        x1 <= x2 + 1,
        y1 <= y2 + 1,
    ensures
        y1 <= y2 && x1 <= x2 ==> final(out)@.len() == (x2 - x1 + 1) * (y2 - y1 + 1),
        y1 > y2 || x1 > x2 ==> final(out)@.len() == 0,
        forall|k: int|
            0 <= k < final(out)@.len() ==> final(out)@[k] == rect_tile(
                x1 as int,
                y1 as int,
                y2 - y1 + 1,
                z as int,
                k,
            ),
{
    if x1 > x2 || y1 > y2 {
        return ;
    }
    let side_y: i64 = y2 - y1 + 1;
    let ghost gx1 = x1 as int;
    let ghost gy1 = y1 as int;
    let mut x: i64 = x1;
    while x <= x2
        invariant
            x1 <= x <= x2 + 1,
            side_y == y2 - y1 + 1,
            y1 <= y2,
            x1 <= x2,
            -2 * COORD_LIMIT <= x1 <= 2 * COORD_LIMIT,
            -2 * COORD_LIMIT <= x2 <= 2 * COORD_LIMIT,
            -2 * COORD_LIMIT <= y1 <= 2 * COORD_LIMIT,
            -2 * COORD_LIMIT <= y2 <= 2 * COORD_LIMIT,
            out@.len() == (x - x1) * side_y,
            forall|k: int|
                0 <= k < out@.len() ==> out@[k] == rect_tile(gx1, gy1, side_y as int, z as int, k),
        decreases x2 + 1 - x,
    {
        let mut y: i64 = y1;
        while y <= y2
            invariant
                x1 <= x <= x2,
                y1 <= y <= y2 + 1,
                side_y == y2 - y1 + 1,
                y1 <= y2,
                x1 <= x2,
                -2 * COORD_LIMIT <= x1 <= 2 * COORD_LIMIT,
                -2 * COORD_LIMIT <= x2 <= 2 * COORD_LIMIT,
                -2 * COORD_LIMIT <= y1 <= 2 * COORD_LIMIT,
                -2 * COORD_LIMIT <= y2 <= 2 * COORD_LIMIT,
                out@.len() == (x - x1) * side_y + (y - y1),
                forall|k: int|
                    0 <= k < out@.len() ==> out@[k] == rect_tile(gx1, gy1, side_y as int, z as int, k),
            decreases y2 + 1 - y,
        {
            let ghost klen = out@.len() as int;
            out.push(BoardPosition { x, y, z });
            proof {
                lemma_fundamental_div_mod_converse(
                    klen,
                    side_y as int,
                    (x - x1) as int,
                    (y - y1) as int,
                );
                assert(out@[klen] == rect_tile(gx1, gy1, side_y as int, z as int, klen));
            }
            y = y + 1;
        }
        proof {
            assert((x - x1) * side_y + side_y == (x + 1 - x1) * side_y) by (nonlinear_arith);
        }
        x = x + 1;
    }
}

/// Allocation-free walk over the clamped square of tiles around a center,
/// `y` slowest and `x` fastest.
#[derive(Clone, Debug)]
pub struct NeighborsIterator {
    pub current_x: i64,
    pub current_y: i64,
    pub min_x: i64,
    pub max_x: i64,
    pub max_y: i64,
    pub z: i64,
}

impl NeighborsIterator {
    /// All coordinates stay comfortably inside `i64` and the cursor never
    /// falls below the start of its row.
    pub open spec fn wf(self) -> bool {
        &&& -2 * (COORD_LIMIT as int) <= self.min_x <= 2 * (COORD_LIMIT as int)
        &&& -2 * (COORD_LIMIT as int) <= self.max_x <= 2 * (COORD_LIMIT as int)
        &&& -2 * (COORD_LIMIT as int) <= self.max_y <= 2 * (COORD_LIMIT as int)
        &&& -2 * (COORD_LIMIT as int) <= self.current_y <= 2 * (COORD_LIMIT as int) + 1
        &&& self.min_x <= self.current_x
        &&& (self.current_x <= self.max_x + 1 || self.current_x == self.min_x)
    }

    /// The iterator state that `new` hands back: the clamped rectangle with
    /// the cursor at its lowest corner.
    pub open spec fn fresh_spec(
        center: BoardPosition,
        max_distance: int,
        from: (int, int),
        to: (int, int),
    ) -> NeighborsIterator {
        NeighborsIterator {
            current_x: vstd::math::max(center.x - max_distance, from.0) as i64,
            current_y: vstd::math::max(center.y - max_distance, from.1) as i64,
            min_x: vstd::math::max(center.x - max_distance, from.0) as i64,
            max_x: vstd::math::min(center.x + max_distance, to.0) as i64,
            max_y: vstd::math::min(center.y + max_distance, to.1) as i64,
            z: center.z,
        }
    }

    /// A walk over the square of radius `max_distance` around `center`,
    /// clamped into the rectangle `from..=to` on both axes.
    pub fn new(center: &BoardPosition, max_distance: i64, from: (i64, i64), to: (i64, i64)) -> (r:
        NeighborsIterator)
        requires
            0 <= max_distance <= 10000,
            -COORD_LIMIT <= center.x <= COORD_LIMIT,
            -COORD_LIMIT <= center.y <= COORD_LIMIT,
            -COORD_LIMIT <= from.0 <= COORD_LIMIT,
            -COORD_LIMIT <= from.1 <= COORD_LIMIT,
            -COORD_LIMIT <= to.0 <= COORD_LIMIT,
            -COORD_LIMIT <= to.1 <= COORD_LIMIT,
        ensures
            r.wf(),
            r == NeighborsIterator::fresh_spec(
                *center,
                max_distance as int,
                (from.0 as int, from.1 as int),
                (to.0 as int, to.1 as int),
            ),
            r.current_x == r.min_x,
            r.z == center.z,
            r.min_x >= from.0 && r.current_y >= from.1,
            r.max_x <= to.0 && r.max_y <= to.1,
    {
        let min_x: i64 = if center.x - max_distance > from.0 { center.x - max_distance } else { from.0 };
        let min_y: i64 = if center.y - max_distance > from.1 { center.y - max_distance } else { from.1 };
        let max_x: i64 = if center.x + max_distance < to.0 { center.x + max_distance } else { to.0 };
        let max_y: i64 = if center.y + max_distance < to.1 { center.y + max_distance } else { to.1 };
        NeighborsIterator { current_x: min_x, current_y: min_y, min_x, max_x, max_y, z: center.z }
    }

    /// The next tile of the walk, or `None` once every row is done. The
    /// yielded `x` never falls below `min_x` and the yielded `y` never
    /// falls below the cursor row, so a walk clamped at the map corner
    /// never yields a negative coordinate.
    pub fn next(&mut self) -> (r: Option<BoardPosition>)
        requires
            old(self).wf(),
        ensures
            final(self).wf(),
            final(self).min_x == old(self).min_x && final(self).max_x == old(self).max_x,
            final(self).max_y == old(self).max_y && final(self).z == old(self).z,
            final(self).current_y >= old(self).current_y,
            r.is_some() <==> old(self).current_y <= old(self).max_y,
            r.is_some() ==> r->0 == (BoardPosition {
                x: old(self).current_x,
                y: old(self).current_y,
                z: old(self).z,
            }),
            r.is_some() ==> old(self).min_x <= r->0.x && old(self).current_y == r->0.y <= old(
                self,
            ).max_y,
            r.is_some() ==> final(self).current_x == (if old(self).current_x < old(self).max_x {
                old(self).current_x + 1
            } else {
                old(self).min_x as int
            }),
            r.is_some() ==> final(self).current_y == (if old(self).current_x < old(self).max_x {
                old(self).current_y as int
            } else {
                old(self).current_y + 1
            }),
            r.is_none() ==> *final(self) == *old(self),
    {
        if self.current_y > self.max_y {
            return None;
        }
        let result = BoardPosition { x: self.current_x, y: self.current_y, z: self.z };
        self.current_x = self.current_x + 1;
        if self.current_x > self.max_x {
            self.current_x = self.min_x;
            self.current_y = self.current_y + 1;
        }
        Some(result)
    }
}

} // verus!
