use vstd::prelude::*;
use rand::RngExt;
use crate::boardposition::BoardPosition;
use crate::fielddata::LightFieldData;

verus! {

/// Dense, flat light-field scratch sector used by the full shadow-casting
/// rebuild. It is a deliberate single-plane scratch: the z extent only
/// sizes the buffer, and every z layer shares the one x-y plane.
/// Coordinates are offset by `(min_x, min_y)`; out-of-rectangle
/// coordinates clamp to the padding index just past the edge. With the
/// row stride that padding column coincides with the next row's first
/// cell except on the last row, so out-of-range reads can alias a real
/// tile; callers that depend on exact reads stay inside the rectangle,
/// and the padding keeps every clamped index inside the buffer.
#[derive(Debug)]
pub struct LightFieldSector {
    pub field: Vec<LightFieldData>,
    pub min_x: i64,
    pub min_y: i64,
    pub _min_z: i64,
    pub sz_x: usize,
    pub sz_y: usize,
    pub _sz_z: usize,
}

/// The flat index the sector uses for `(x, y)`: each offset coordinate
/// stays as it is inside `[0, size)` and becomes the padding index `size`
/// otherwise, on either side of the rectangle.
pub open spec fn sector_coord_spec(min_x: int, min_y: int, sz_x: int, sz_y: int, x: int, y: int) -> int {
    let cx = if 0 <= x - min_x < sz_x {
        x - min_x
    } else {
        sz_x
    };
    let cy = if 0 <= y - min_y < sz_y {
        y - min_y
    } else {
        sz_y
    };
    cx + cy * sz_x
}

impl LightFieldSector {
    /// The sector geometry stays modest and the buffer covers every
    /// clamped index.
    pub open spec fn wf(self) -> bool {
        &&& 0 <= self.sz_x <= 2048
        &&& 0 <= self.sz_y <= 2048
        &&& -1000000000 <= self.min_x <= 1000000000
        &&& -1000000000 <= self.min_y <= 1000000000
        &&& self.field@.len() == self.sz_x * self.sz_y * self._sz_z + 15000
        &&& self.field@.len() >= self.sz_x + self.sz_x * self.sz_y + 1
    }

    /// A dark sector covering `[min_x..=max_x] x [min_y..=max_y]` (and the
    /// z extent), with padding behind the clamped edge.
    pub fn new(min_x: i64, min_y: i64, min_z: i64, max_x: i64, max_y: i64, max_z: i64) -> (r:
        LightFieldSector)
        requires
            -1000000000 <= min_x <= 1000000000,
            -1000000000 <= min_y <= 1000000000,
            -1000000000 <= min_z <= 1000000000,
            min_x <= max_x < min_x + 2048,
            min_y <= max_y < min_y + 2048,
            min_z <= max_z < min_z + 16,
        ensures
            r.wf(),
            r.min_x == min_x && r.min_y == min_y,
            r._min_z == min_z,
            r.sz_x == max_x - min_x + 1,
            r.sz_y == max_y - min_y + 1,
            r._sz_z == max_z - min_z + 1,
            r.field@.len() == r.sz_x * r.sz_y * r._sz_z + 15000,
            forall|i: int|
                0 <= i < r.field@.len() ==> r.field@[i] == LightFieldData::dark_spec(),
    {
        let sz_x: usize = (max_x - min_x + 1) as usize;
        let sz_y: usize = (max_y - min_y + 1) as usize;
        let sz_z: usize = (max_z - min_z + 1) as usize;
        proof {
            assert(sz_x * sz_y <= 2048 * 2048) by (nonlinear_arith)
                requires
                    0 <= sz_x <= 2048 && 0 <= sz_y <= 2048,
            ;
            assert(sz_x * sz_y * sz_z <= 2048 * 2048 * 16) by (nonlinear_arith)
                requires
                    0 <= sz_x * sz_y <= 2048 * 2048 && 0 <= sz_z <= 16,
            ;
            assert(sz_x + sz_x * sz_y + 1 <= sz_x * sz_y * sz_z + 15000) by (nonlinear_arith)
                requires
                    0 <= sz_x <= 2048 && 0 <= sz_y <= 2048 && 1 <= sz_z,
            ;
        }
        let n: usize = sz_x * sz_y * sz_z + 15000;
        let mut field: Vec<LightFieldData> = Vec::new();
        let mut i: usize = 0;
        while i < n
            invariant
                0 <= i <= n,
                field@.len() == i,
                forall|k: int| 0 <= k < i ==> field@[k] == LightFieldData::dark_spec(),
            decreases n - i,
        {
            field.push(LightFieldData::dark());
            i = i + 1;
        }
        LightFieldSector { field, min_x, min_y, _min_z: min_z, sz_x, sz_y, _sz_z: sz_z }
    }

    /// The flat index for `(x, y)`; out-of-rectangle coordinates clamp to
    /// the padded edge.
    pub fn vec_coord(&self, x: i64, y: i64, _z: i64) -> (r: usize)
        requires
            self.wf(),
            -1000000000 <= x <= 1000000000,
            -1000000000 <= y <= 1000000000,
        ensures
            r == sector_coord_spec(
                self.min_x as int,
                self.min_y as int,
                self.sz_x as int,
                self.sz_y as int,
                x as int,
                y as int,
            ),
            r < self.field@.len(),
    {
        let rx: i64 = x - self.min_x;
        let ry: i64 = y - self.min_y;
        let cx: i64 = if 0 <= rx && rx < self.sz_x as i64 {
            rx
        } else {
            self.sz_x as i64
        };
        let cy: i64 = if 0 <= ry && ry < self.sz_y as i64 {
            ry
        } else {
            self.sz_y as i64
        };
        proof {
            assert((cy as int) * (self.sz_x as int) <= (self.sz_y as int) * (self.sz_x as int))
                by (nonlinear_arith)
                requires
                    0 <= cy <= self.sz_y && 0 <= self.sz_x,
            ;
            assert(0 <= (cy as int) * (self.sz_x as int)) by (nonlinear_arith)
                requires
                    0 <= cy && 0 <= self.sz_x,
            ;
            assert((self.sz_y as int) * (self.sz_x as int) <= 4194304) by (nonlinear_arith)
                requires
                    0 <= self.sz_y <= 2048 && 0 <= self.sz_x <= 2048,
            ;
            assert((self.sz_x as int) * (self.sz_y as int) == (self.sz_y as int) * (
            self.sz_x as int)) by (nonlinear_arith);
        }
        (cx + cy * (self.sz_x as i64)) as usize
    }

    /// The tile stored for `(x, y)`, or `None` past the buffer (which the
    /// padding prevents for clamped indices).
    pub fn get(&self, x: i64, y: i64, z: i64) -> (r: Option<LightFieldData>)
        requires
            self.wf(),
            -1000000000 <= x <= 1000000000,
            -1000000000 <= y <= 1000000000,
        ensures
            r == Some(
                self.field@[sector_coord_spec(
                    self.min_x as int,
                    self.min_y as int,
                    self.sz_x as int,
                    self.sz_y as int,
                    x as int,
                    y as int,
                )],
            ),
            0 <= sector_coord_spec(
                self.min_x as int,
                self.min_y as int,
                self.sz_x as int,
                self.sz_y as int,
                x as int,
                y as int,
            ) < self.field@.len(),
    {
        let xyz = self.vec_coord(x, y, z);
        Some(self.field[xyz])
    }

    /// The tile stored for a board position.
    pub fn get_pos(&self, p: &BoardPosition) -> (r: Option<LightFieldData>)
        requires
            self.wf(),
            -1000000000 <= p.x <= 1000000000,
            -1000000000 <= p.y <= 1000000000,
        ensures
            r == Some(
                self.field@[sector_coord_spec(
                    self.min_x as int,
                    self.min_y as int,
                    self.sz_x as int,
                    self.sz_y as int,
                    p.x as int,
                    p.y as int,
                )],
            ),
            0 <= sector_coord_spec(
                self.min_x as int,
                self.min_y as int,
                self.sz_x as int,
                self.sz_y as int,
                p.x as int,
                p.y as int,
            ) < self.field@.len(),
    {
        self.get(p.x, p.y, p.z)
    }

    /// Reads the tile at `(x, y)` so a caller can write a changed copy
    /// back; the sector itself hands out values, not references.
    pub fn get_mut(&mut self, x: i64, y: i64, z: i64) -> (r: Option<LightFieldData>)
        requires
            old(self).wf(),
            -1000000000 <= x <= 1000000000,
            -1000000000 <= y <= 1000000000,
        ensures
            *final(self) == *old(self),
            r == Some(
                final(self).field@[sector_coord_spec(
                    final(self).min_x as int,
                    final(self).min_y as int,
                    final(self).sz_x as int,
                    final(self).sz_y as int,
                    x as int,
                    y as int,
                )],
            ),
    {
        let xyz = self.vec_coord(x, y, z);
        Some(self.field[xyz])
    }

    /// Reads the tile at a board position for later write-back.
    pub fn get_mut_pos(&mut self, p: &BoardPosition) -> (r: Option<LightFieldData>)
        requires
            old(self).wf(),
            -1000000000 <= p.x <= 1000000000,
            -1000000000 <= p.y <= 1000000000,
        ensures
            *final(self) == *old(self),
            r == Some(
                final(self).field@[sector_coord_spec(
                    final(self).min_x as int,
                    final(self).min_y as int,
                    final(self).sz_x as int,
                    final(self).sz_y as int,
                    p.x as int,
                    p.y as int,
                )],
            ),
    {
        self.get_mut(p.x, p.y, p.z)
    }

    /// Stores `lfd` at the clamped index of `(x, y)`.
    pub fn insert(&mut self, x: i64, y: i64, z: i64, lfd: LightFieldData)
        requires
            old(self).wf(),
            -1000000000 <= x <= 1000000000,
            -1000000000 <= y <= 1000000000,
        ensures
            final(self).wf(),
            final(self).min_x == old(self).min_x && final(self).min_y == old(self).min_y,
            final(self).sz_x == old(self).sz_x && final(self).sz_y == old(self).sz_y,
            final(self)._min_z == old(self)._min_z && final(self)._sz_z == old(self)._sz_z,
            final(self).field@ == old(self).field@.update(
                sector_coord_spec(
                    old(self).min_x as int,
                    old(self).min_y as int,
                    old(self).sz_x as int,
                    old(self).sz_y as int,
                    x as int,
                    y as int,
                ),
                lfd,
            ),
    {
        let xyz = self.vec_coord(x, y, z);
        self.field.set(xyz, lfd);
    }

    /// An independent copy with the same geometry and contents.
    pub fn duplicate(&self) -> (r: LightFieldSector)
        requires
            self.wf(),
        ensures
            r.wf(),
            r.min_x == self.min_x && r.min_y == self.min_y,
            r.sz_x == self.sz_x && r.sz_y == self.sz_y,
            r._min_z == self._min_z && r._sz_z == self._sz_z,
            r.field@ == self.field@,
    {
        let mut field: Vec<LightFieldData> = Vec::new();
        let mut i: usize = 0;
        while i < self.field.len()
            invariant
                0 <= i <= self.field@.len(),
                field@.len() == i,
                forall|k: int| 0 <= k < i ==> field@[k] == self.field@[k],
            decreases self.field@.len() - i,
        {
            field.push(self.field[i]);
            i = i + 1;
        }
        proof {
            assert(field@ =~= self.field@);
        }
        LightFieldSector {
            field,
            min_x: self.min_x,
            min_y: self.min_y,
            _min_z: self._min_z,
            sz_x: self.sz_x,
            sz_y: self.sz_y,
            _sz_z: self._sz_z,
        }
    }
}

} // verus!

verus! {

/// `r` is the integer square root of `n`.
pub open spec fn is_isqrt(n: int, r: int) -> bool {
    0 <= r && r * r <= n < (r + 1) * (r + 1)
}

/// Integer square root by bisection.
pub fn isqrt_i64(n: i64) -> (r: i64)
    requires
        0 <= n <= 4000000000000,
    ensures
        is_isqrt(n as int, r as int),
{
    let mut lo: i64 = 0;
    let mut hi: i64 = 2000001;
    proof {
        assert(2000001int * 2000001 > 4000000000000) by (nonlinear_arith);
    }
    while lo + 1 < hi
        invariant
            0 <= lo < hi <= 2000001,
            (lo as int) * (lo as int) <= n,
            n < (hi as int) * (hi as int),
        decreases hi - lo,
    {
        let mid: i64 = (lo + hi) / 2;
        proof {
            vstd::arithmetic::div_mod::lemma_fundamental_div_mod(lo as int + hi as int, 2);
            vstd::arithmetic::div_mod::lemma_mod_bound(lo as int + hi as int, 2);
            assert(lo < mid < hi);
            assert((mid as int) * (mid as int) <= 2000001int * 2000001) by (nonlinear_arith)
                requires
                    0 <= mid <= 2000001,
            ;
        }
        if mid * mid <= n {
            lo = mid;
        } else {
            hi = mid;
        }
    }
    lo
}

/// The quantized direction of the offset `(dx, dy)`: the perimeter is
/// discretized into 96 buckets covering a full turn, measured along the
/// unit diamond so the whole table is exact integer arithmetic. Bucket 0
/// points along positive `x`, bucket 24 along positive `y`. Because the
/// parameter runs along the diamond rather than the circle, some offsets
/// land one bucket away from a rounding of their Euclidean angle; the
/// quantization is uniform, not trigonometric.
pub open spec fn angle_bucket_spec(dx: int, dy: int) -> int {
    if dx == 0 && dy == 0 {
        0
    } else {
        let l = crate::boardposition::abs_spec(dx) + crate::boardposition::abs_spec(dy);
        let a24 = if dx > 0 && dy >= 0 {
            24 * dy
        } else if dx <= 0 && dy > 0 {
            24 * l + 24 * (-dx)
        } else if dx < 0 && dy <= 0 {
            48 * l + 24 * (-dy)
        } else {
            72 * l + 24 * dx
        };
        ((2 * a24 + l) / (2 * l)) % 96
    }
}

/// Computes the quantized direction bucket of an offset.
pub fn angle_bucket(dx: i64, dy: i64) -> (r: i64)
    requires
        -100000 <= dx <= 100000,
        -100000 <= dy <= 100000,
    ensures
        r == angle_bucket_spec(dx as int, dy as int),
        0 <= r < 96,
{
    if dx == 0 && dy == 0 {
        return 0;
    }
    let l: i64 = crate::boardposition::abs_i64(dx) + crate::boardposition::abs_i64(dy);
    let a24: i64 = if dx > 0 && dy >= 0 {
        24 * dy
    } else if dx <= 0 && dy > 0 {
        24 * l + 24 * (-dx)
    } else if dx < 0 && dy <= 0 {
        48 * l + 24 * (-dy)
    } else {
        72 * l + 24 * dx
    };
    proof {
        vstd::arithmetic::div_mod::lemma_div_pos_is_pos(2 * (a24 as int) + l as int, 2 * (l as int));
        vstd::arithmetic::div_mod::lemma_mod_bound(
            (2 * (a24 as int) + l as int) / (2 * (l as int)),
            96,
        );
    }
    ((2 * a24 + l) / (2 * l)) % 96
}

/// Folds a bucket difference onto the short way around the circle.
pub open spec fn norm96(d: int) -> int {
    if d > 48 {
        d - 96
    } else if d < -48 {
        d + 96
    } else {
        d
    }
}

/// The smaller of two values.
pub open spec fn min_spec(a: int, b: int) -> int {
    if a < b {
        a
    } else {
        b
    }
}

/// The larger of two values.
pub open spec fn max_spec(a: int, b: int) -> int {
    if a > b {
        a
    } else {
        b
    }
}

/// The angular width a unit tile at offset `(dx, dy)` subtends: the
/// extreme bucket deviations of the tile's four corners (in doubled
/// coordinates) from the tile center's bucket, always including zero.
pub open spec fn angle_range_spec(dx: int, dy: int) -> (int, int) {
    let c = angle_bucket_spec(dx, dy);
    let d1 = norm96(angle_bucket_spec(2 * dx - 1, 2 * dy - 1) - c);
    let d2 = norm96(angle_bucket_spec(2 * dx - 1, 2 * dy + 1) - c);
    let d3 = norm96(angle_bucket_spec(2 * dx + 1, 2 * dy - 1) - c);
    let d4 = norm96(angle_bucket_spec(2 * dx + 1, 2 * dy + 1) - c);
    (
        min_spec(min_spec(min_spec(min_spec(0, d1), d2), d3), d4),
        max_spec(max_spec(max_spec(max_spec(0, d1), d2), d3), d4),
    )
}

/// Computes the corner-deviation range of an offset's direction buckets.
pub fn angle_range(dx: i64, dy: i64) -> (r: (i64, i64))
    requires
        -40000 <= dx <= 40000,
        -40000 <= dy <= 40000,
    ensures
        (r.0 as int, r.1 as int) == angle_range_spec(dx as int, dy as int),
        -96 <= r.0 <= 0 <= r.1 <= 96,
{
    let c: i64 = angle_bucket(dx, dy);
    let b1: i64 = angle_bucket(2 * dx - 1, 2 * dy - 1) - c;
    let b2: i64 = angle_bucket(2 * dx - 1, 2 * dy + 1) - c;
    let b3: i64 = angle_bucket(2 * dx + 1, 2 * dy - 1) - c;
    let b4: i64 = angle_bucket(2 * dx + 1, 2 * dy + 1) - c;
    let d1: i64 = if b1 > 48 { b1 - 96 } else if b1 < -48 { b1 + 96 } else { b1 };
    let d2: i64 = if b2 > 48 { b2 - 96 } else if b2 < -48 { b2 + 96 } else { b2 };
    let d3: i64 = if b3 > 48 { b3 - 96 } else if b3 < -48 { b3 + 96 } else { b3 };
    let d4: i64 = if b4 > 48 { b4 - 96 } else if b4 < -48 { b4 + 96 } else { b4 };
    let mut mn: i64 = 0;
    let mut mx: i64 = 0;
    if d1 < mn { mn = d1; }
    if d2 < mn { mn = d2; }
    if d3 < mn { mn = d3; }
    if d4 < mn { mn = d4; }
    if d1 > mx { mx = d1; }
    if d2 > mx { mx = d2; }
    if d3 > mx { mx = d3; }
    if d4 > mx { mx = d4; }
    (mn, mx)
}

/// Precomputed per-offset lookups for shadow casting within the fixed
/// maximum radius: Euclidean distance in milli-tiles, the quantized
/// direction bucket, and the angular width of a unit tile, for every
/// offset pair within `CENTER` tiles; built once, no trigonometry in the
/// hot loop.
pub struct CachedBoardPos {
    pub dist: Vec<i64>,
    pub angle: Vec<i64>,
    pub angle_range: Vec<(i64, i64)>,
}

/// Half the table's side: the largest offset magnitude it covers.
pub const CBP_CENTER: i64 = 32;

/// The table's side in entries.
pub const CBP_SZ: usize = 65;

/// The number of direction buckets covering a full turn.
pub const CBP_TAU_I: usize = 96;

/// The entry of a flat 65 by 65 table that the offset decoded from `k`
/// denotes is correct for distance.
pub open spec fn cbp_dist_ok(v: Seq<i64>, k: int) -> bool {
    is_isqrt(
        ((k / 65 - 32) * (k / 65 - 32) + (k % 65 - 32) * (k % 65 - 32)) * 1000000,
        v[k] as int,
    )
}

/// The entry at `k` is the direction bucket of the offset decoded from `k`.
pub open spec fn cbp_angle_ok(v: Seq<i64>, k: int) -> bool {
    v[k] as int == angle_bucket_spec(k / 65 - 32, k % 65 - 32)
}

/// The entry at `k` is the corner-deviation range of the offset decoded
/// from `k`.
pub open spec fn cbp_range_ok(v: Seq<(i64, i64)>, k: int) -> bool {
    (v[k].0 as int, v[k].1 as int) == angle_range_spec(k / 65 - 32, k % 65 - 32)
}

impl CachedBoardPos {
    /// Every table covers all offsets and every entry is correct.
    pub open spec fn wf(self) -> bool {
        &&& self.dist@.len() == 4225
        &&& self.angle@.len() == 4225
        &&& self.angle_range@.len() == 4225
        &&& forall|k: int| 0 <= k < 4225 ==> #[trigger] cbp_dist_ok(self.dist@, k)
        &&& forall|k: int| 0 <= k < 4225 ==> #[trigger] cbp_angle_ok(self.angle@, k)
        &&& forall|k: int| 0 <= k < 4225 ==> #[trigger] cbp_range_ok(self.angle_range@, k)
    }

    /// Builds the three lookup tables for every offset pair.
    pub fn new() -> (r: CachedBoardPos)
        ensures
            r.wf(),
    {
        let mut dist: Vec<i64> = Vec::new();
        let mut angle: Vec<i64> = Vec::new();
        let mut angle_range: Vec<(i64, i64)> = Vec::new();
        let mut x: usize = 0;
        while x < 65
            invariant
                0 <= x <= 65,
                dist@.len() == x * 65,
                angle@.len() == x * 65,
                angle_range@.len() == x * 65,
                forall|k: int| 0 <= k < dist@.len() ==> #[trigger] cbp_dist_ok(dist@, k),
                forall|k: int| 0 <= k < angle@.len() ==> #[trigger] cbp_angle_ok(angle@, k),
                forall|k: int|
                    0 <= k < angle_range@.len() ==> #[trigger] cbp_range_ok(angle_range@, k),
            decreases 65 - x,
        {
            let mut y: usize = 0;
            while y < 65
                invariant
                    0 <= x < 65,
                    0 <= y <= 65,
                    dist@.len() == x * 65 + y,
                    angle@.len() == x * 65 + y,
                    angle_range@.len() == x * 65 + y,
                    forall|k: int| 0 <= k < dist@.len() ==> #[trigger] cbp_dist_ok(dist@, k),
                    forall|k: int| 0 <= k < angle@.len() ==> #[trigger] cbp_angle_ok(angle@, k),
                    forall|k: int|
                        0 <= k < angle_range@.len() ==> #[trigger] cbp_range_ok(angle_range@, k),
                decreases 65 - y,
            {
                let dx: i64 = x as i64 - 32;
                let dy: i64 = y as i64 - 32;
                let ghost klen = dist@.len() as int;
                let ghost dv0 = dist@;
                let ghost av0 = angle@;
                let ghost rv0 = angle_range@;
                proof {
                    vstd::arithmetic::div_mod::lemma_fundamental_div_mod_converse(
                        klen,
                        65,
                        x as int,
                        y as int,
                    );
                }
                proof {
                    assert(0 <= (dx as int) * (dx as int) <= 1024 && 0 <= (dy as int) * (
                    dy as int) <= 1024) by (nonlinear_arith)
                        requires
                            -32 <= dx <= 32 && -32 <= dy <= 32,
                    ;
                }
                let d = isqrt_i64((dx * dx + dy * dy) * 1000000);
                let a = angle_bucket(dx, dy);
                let ar = crate::board::angle_range(dx, dy);
                dist.push(d);
                angle.push(a);
                angle_range.push(ar);
                proof {
                    assert(cbp_dist_ok(dist@, klen));
                    assert(cbp_angle_ok(angle@, klen));
                    assert(cbp_range_ok(angle_range@, klen));
                    assert forall|k: int| 0 <= k < dist@.len() implies #[trigger] cbp_dist_ok(
                        dist@,
                        k,
                    ) by {
                        if k < klen {
                            assert(cbp_dist_ok(dv0, k));
                            assert(dist@[k] == dv0[k]);
                        }
                    }
                    assert forall|k: int| 0 <= k < angle@.len() implies #[trigger] cbp_angle_ok(
                        angle@,
                        k,
                    ) by {
                        if k < klen {
                            assert(cbp_angle_ok(av0, k));
                            assert(angle@[k] == av0[k]);
                        }
                    }
                    assert forall|k: int|
                        0 <= k < angle_range@.len() implies #[trigger] cbp_range_ok(
                        angle_range@,
                        k,
                    ) by {
                        if k < klen {
                            assert(cbp_range_ok(rv0, k));
                            assert(angle_range@[k] == rv0[k]);
                        }
                    }
                }
                y = y + 1;
            }
            proof {
                assert(x * 65 + 65 == (x + 1) * 65) by (nonlinear_arith);
            }
            x = x + 1;
        }
        proof {
            assert(65 * 65 == 4225) by (nonlinear_arith);
        }
        CachedBoardPos { dist, angle, angle_range }
    }

    /// Distance in milli-tiles between two board positions within the
    /// table's radius.
    pub fn bpos_dist(&self, s: &BoardPosition, d: &BoardPosition) -> (r: i64)
        requires
            self.wf(),
            -32 <= d.x - s.x <= 32,
            -32 <= d.y - s.y <= 32,
        ensures
            is_isqrt(
                ((d.x - s.x) * (d.x - s.x) + (d.y - s.y) * (d.y - s.y)) * 1000000,
                r as int,
            ),
    {
        let x: usize = (d.x - s.x + 32) as usize;
        let y: usize = (d.y - s.y + 32) as usize;
        proof {
            vstd::arithmetic::div_mod::lemma_fundamental_div_mod_converse(
                (x * 65 + y) as int,
                65,
                x as int,
                y as int,
            );
            assert(x * 65 + y < 4225) by (nonlinear_arith)
                requires
                    0 <= x < 65 && 0 <= y < 65,
            ;
            assert(cbp_dist_ok(self.dist@, (x * 65 + y) as int));
        }
        self.dist[x * 65 + y]
    }

    /// Direction bucket between two board positions within the radius.
    pub fn bpos_angle(&self, s: &BoardPosition, d: &BoardPosition) -> (r: i64)
        requires
            self.wf(),
            -32 <= d.x - s.x <= 32,
            -32 <= d.y - s.y <= 32,
        ensures
            r == angle_bucket_spec((d.x - s.x) as int, (d.y - s.y) as int),
            0 <= r < 96,
    {
        let x: usize = (d.x - s.x + 32) as usize;
        let y: usize = (d.y - s.y + 32) as usize;
        proof {
            vstd::arithmetic::div_mod::lemma_fundamental_div_mod_converse(
                (x * 65 + y) as int,
                65,
                x as int,
                y as int,
            );
            assert(x * 65 + y < 4225) by (nonlinear_arith)
                requires
                    0 <= x < 65 && 0 <= y < 65,
            ;
            assert(cbp_angle_ok(self.angle@, (x * 65 + y) as int));
        }
        let r = self.angle[x * 65 + y];
        proof {
            crate::board::lemma_angle_bucket_range((d.x - s.x) as int, (d.y - s.y) as int);
        }
        r
    }

    /// Corner-deviation range between two board positions within the radius.
    pub fn bpos_angle_range(&self, s: &BoardPosition, d: &BoardPosition) -> (r: (i64, i64))
        requires
            self.wf(),
            -32 <= d.x - s.x <= 32,
            -32 <= d.y - s.y <= 32,
        ensures
            (r.0 as int, r.1 as int) == angle_range_spec((d.x - s.x) as int, (d.y - s.y) as int),
            -96 <= r.0 <= 0 <= r.1 <= 96,
    {
        let x: usize = (d.x - s.x + 32) as usize;
        let y: usize = (d.y - s.y + 32) as usize;
        proof {
            vstd::arithmetic::div_mod::lemma_fundamental_div_mod_converse(
                (x * 65 + y) as int,
                65,
                x as int,
                y as int,
            );
            assert(x * 65 + y < 4225) by (nonlinear_arith)
                requires
                    0 <= x < 65 && 0 <= y < 65,
            ;
            assert(cbp_range_ok(self.angle_range@, (x * 65 + y) as int));
        }
        let r = self.angle_range[x * 65 + y];
        proof {
            lemma_angle_range_bounds((d.x - s.x) as int, (d.y - s.y) as int);
        }
        r
    }
}

/// Direction buckets stay within a full turn.
pub proof fn lemma_angle_bucket_range(dx: int, dy: int)
    ensures
        0 <= angle_bucket_spec(dx, dy) < 96,
{
    if !(dx == 0 && dy == 0) {
        let l = crate::boardposition::abs_spec(dx) + crate::boardposition::abs_spec(dy);
        let a24 = if dx > 0 && dy >= 0 {
            24 * dy
        } else if dx <= 0 && dy > 0 {
            24 * l + 24 * (-dx)
        } else if dx < 0 && dy <= 0 {
            48 * l + 24 * (-dy)
        } else {
            72 * l + 24 * dx
        };
        vstd::arithmetic::div_mod::lemma_div_pos_is_pos(2 * a24 + l, 2 * l);
        vstd::arithmetic::div_mod::lemma_mod_bound((2 * a24 + l) / (2 * l), 96);
    }
}

/// Corner-deviation ranges always bracket zero and stay within a turn.
pub proof fn lemma_angle_range_bounds(dx: int, dy: int)
    ensures
        -96 <= angle_range_spec(dx, dy).0 <= 0,
        0 <= angle_range_spec(dx, dy).1 <= 96,
{
    lemma_angle_bucket_range(dx, dy);
    lemma_angle_bucket_range(2 * dx - 1, 2 * dy - 1);
    lemma_angle_bucket_range(2 * dx - 1, 2 * dy + 1);
    lemma_angle_bucket_range(2 * dx + 1, 2 * dy - 1);
    lemma_angle_bucket_range(2 * dx + 1, 2 * dy + 1);
}

} // verus!

verus! {

/// First collision pass over the first `k` snapshot entries: every
/// walkable entity stamps its tile free for movement but opaque to light.
pub open spec fn collision_pass1(
    snap: Seq<crate::behavior::EntitySnapshot>,
    col0: Map<(int, int, int), crate::fielddata::CollisionFieldData>,
    k: nat,
) -> Map<(int, int, int), crate::fielddata::CollisionFieldData>
    decreases k,
{
    if k == 0 {
        col0
    } else {
        let prev = collision_pass1(snap, col0, (k - 1) as nat);
        let e = snap[k - 1];
        if e.props.movement.walkable {
            prev.insert(
                (e.pos.x as int, e.pos.y as int, e.pos.z as int),
                crate::fielddata::CollisionFieldData {
                    player_free: true,
                    ghost_free: true,
                    see_through: false,
                },
            )
        } else {
            prev
        }
    }
}

/// Second collision pass: every colliding entity stamps its tile blocked
/// for the player, blocked for the ghost when it collides with ghosts,
/// and see-through as its light behavior says.
pub open spec fn collision_pass2(
    snap: Seq<crate::behavior::EntitySnapshot>,
    col1: Map<(int, int, int), crate::fielddata::CollisionFieldData>,
    k: nat,
) -> Map<(int, int, int), crate::fielddata::CollisionFieldData>
    decreases k,
{
    if k == 0 {
        col1
    } else {
        let prev = collision_pass2(snap, col1, (k - 1) as nat);
        let e = snap[k - 1];
        if e.props.movement.player_collision {
            prev.insert(
                (e.pos.x as int, e.pos.y as int, e.pos.z as int),
                crate::fielddata::CollisionFieldData {
                    player_free: false,
                    ghost_free: !e.props.movement.ghost_collision,
                    see_through: e.props.light.see_through,
                },
            )
        } else {
            prev
        }
    }
}

/// The rebuilt collision field: unoccupied tiles default to fully free and
/// see-through, walkable entities stamp their tiles first, and colliding
/// entities overwrite them.
pub open spec fn collision_rebuild_spec(
    snap: Seq<crate::behavior::EntitySnapshot>,
    size: (int, int, int),
) -> Map<(int, int, int), crate::fielddata::CollisionFieldData> {
    collision_pass2(
        snap,
        collision_pass1(
            snap,
            crate::grids::grid_fill_map(size, crate::fielddata::CollisionFieldData::free_spec()),
            snap.len(),
        ),
        snap.len(),
    )
}

/// Fully recomputes the collision field from the entity snapshot and
/// overwrites the board's copy.
#[verifier::loop_isolation(false)]
pub fn rebuild_collision_field(
    bf: &mut crate::boarddata::BoardData,
    snapshot: &Vec<crate::behavior::EntitySnapshot>,
)
    requires
        old(bf).wf(),
        crate::lighting::snapshot_in_bounds(snapshot@, old(bf).dims()),
    ensures
        final(bf).wf(),
        *final(bf) == (crate::boarddata::BoardData {
            collision_field: final(bf).collision_field,
            ..*old(bf)
        }),
        crate::grids::collision_grid_map(final(bf).collision_field) == collision_rebuild_spec(
            snapshot@,
            old(bf).dims(),
        ),
        crate::grids::collision_grid_dims(final(bf).collision_field) == old(bf).dims(),
{
    let ghost dims = bf.dims();
    let (sx, sy, sz): (usize, usize, usize) = bf.map_size;
    let mut col = crate::grids::collision_grid_new(
        sx,
        sy,
        sz,
        crate::fielddata::CollisionFieldData::free(),
    );
    let ghost col0 = crate::grids::collision_grid_map(col);
    let mut k: usize = 0;
    while k < snapshot.len()
        invariant
            0 <= k <= snapshot@.len(),
            crate::grids::collision_grid_dims(col) == dims,
            crate::grids::grid_dom_ok(dims, crate::grids::collision_grid_map(col)),
            crate::grids::collision_grid_map(col) == collision_pass1(snapshot@, col0, k as nat),
        decreases snapshot@.len() - k,
    {
        let e = snapshot[k];
        if e.props.movement.walkable {
            let idx = e.pos.ndidx();
            crate::grids::collision_grid_set(
                &mut col,
                idx.0,
                idx.1,
                idx.2,
                crate::fielddata::CollisionFieldData {
                    player_free: true,
                    ghost_free: true,
                    see_through: false,
                },
            );
        }
        k = k + 1;
    }
    let ghost col1 = crate::grids::collision_grid_map(col);
    let mut k2: usize = 0;
    while k2 < snapshot.len()
        invariant
            0 <= k2 <= snapshot@.len(),
            crate::grids::collision_grid_dims(col) == dims,
            crate::grids::grid_dom_ok(dims, crate::grids::collision_grid_map(col)),
            crate::grids::collision_grid_map(col) == collision_pass2(snapshot@, col1, k2 as nat),
        decreases snapshot@.len() - k2,
    {
        let e = snapshot[k2];
        if e.props.movement.player_collision {
            let idx = e.pos.ndidx();
            crate::grids::collision_grid_set(
                &mut col,
                idx.0,
                idx.1,
                idx.2,
                crate::fielddata::CollisionFieldData {
                    player_free: false,
                    ghost_free: !e.props.movement.ghost_collision,
                    see_through: e.props.light.see_through,
                },
            );
        }
        k2 = k2 + 1;
    }
    bf.collision_field = col;
}

/// Floor division for possibly negative numerators: rounds toward
/// negative infinity, matching mathematical integer division.
pub fn floor_div_i64(a: i64, b: i64) -> (r: i64)
    requires
        1 <= b <= 1000000000,
        -1000000000000000000 <= a <= 1000000000000000000,
    ensures
        r == a as int / b as int,
{
    if a >= 0 {
        a / b
    } else {
        let q: i64 = (-a) / b;
        let rem: i64 = (-a) % b;
        let r: i64 = if rem == 0 {
            -q
        } else {
            -q - 1
        };
        proof {
            vstd::arithmetic::div_mod::lemma_fundamental_div_mod(-(a as int), b as int);
            vstd::arithmetic::div_mod::lemma_mod_bound(-(a as int), b as int);
            if rem == 0 {
                assert(a as int == (-(q as int)) * (b as int) + 0) by (nonlinear_arith)
                    requires
                        -(a as int) == (b as int) * (q as int),
                ;
                vstd::arithmetic::div_mod::lemma_fundamental_div_mod_converse(
                    a as int,
                    b as int,
                    -(q as int),
                    0,
                );
            } else {
                assert(a as int == (-(q as int) - 1) * (b as int) + ((b - rem) as int))
                    by (nonlinear_arith)
                    requires
                        -(a as int) == (b as int) * (q as int) + (rem as int),
                ;
                vstd::arithmetic::div_mod::lemma_fundamental_div_mod_converse(
                    a as int,
                    b as int,
                    -(q as int) - 1,
                    (b - rem) as int,
                );
            }
        }
        r
    }
}

} // verus!

verus! {

/// Jitter magnitude for fresh temperature tiles, in milli-degrees.
pub const TEMP_JITTER_MILLI: i64 = 10000;

/// Relies on `rand::rng` and `rand::RngExt::random_range`: a sample drawn
/// uniformly from the half-open range. Nothing more is assumed of it; the
/// callers state what holds of every outcome.
#[verifier::external_body]
fn random_in_range(lo: i64, hi: i64) -> (r: i64)
    requires
        lo < hi,
    ensures
        lo <= r < hi,
{
    rand::rng().random_range(lo..hi)
}

/// Every in-bounds temperature lies within the jitter envelope around the
/// ambient temperature.
pub open spec fn temps_in_envelope(bf: crate::boarddata::BoardData) -> bool {
    forall|p: (int, int, int)|
        crate::lighting::in_bounds_spec(bf.dims(), p) ==> bf.ambient_temp - TEMP_JITTER_MILLI <= (
        #[trigger] crate::grids::temp_grid_map(bf.temperature_field)[p]) <= bf.ambient_temp
            + TEMP_JITTER_MILLI
}

/// Seeds every tile's temperature with the ambient value plus a random
/// jitter, so the field does not start out visibly flat. Run once per
/// level load, before the smoothing passes.
#[verifier::loop_isolation(false)]
pub fn seed_temperatures(bf: &mut crate::boarddata::BoardData)
    requires
        old(bf).wf(),
        -1000000000 <= old(bf).ambient_temp <= 1000000000,
    ensures
        final(bf).wf(),
        *final(bf) == (crate::boarddata::BoardData {
            temperature_field: final(bf).temperature_field,
            ..*old(bf)
        }),
        temps_in_envelope(*final(bf)),
{
    let ghost dims = bf.dims();
    let ambient: i64 = bf.ambient_temp;
    let (sx, sy, sz): (usize, usize, usize) = bf.map_size;
    let mut x: usize = 0;
    while x < sx
        invariant
            0 <= x <= sx,
            bf.wf(),
            bf.dims() == dims,
            bf.map_size == old(bf).map_size,
            bf.ambient_temp == ambient,
            *bf == (crate::boarddata::BoardData {
                temperature_field: bf.temperature_field,
                ..*old(bf)
            }),
            forall|p: (int, int, int)|
                crate::lighting::in_bounds_spec(dims, p) && p.0 < x ==> ambient - TEMP_JITTER_MILLI
                    <= (#[trigger] crate::grids::temp_grid_map(bf.temperature_field)[p]) <= ambient
                    + TEMP_JITTER_MILLI,
        decreases sx - x,
    {
        let mut y: usize = 0;
        while y < sy
            invariant
                0 <= x < sx,
                0 <= y <= sy,
                bf.wf(),
                bf.dims() == dims,
                bf.map_size == old(bf).map_size,
                bf.ambient_temp == ambient,
                *bf == (crate::boarddata::BoardData {
                    temperature_field: bf.temperature_field,
                    ..*old(bf)
                }),
                forall|p: (int, int, int)|
                    crate::lighting::in_bounds_spec(dims, p) && (p.0 < x || (p.0 == x && p.1 < y))
                        ==> ambient - TEMP_JITTER_MILLI <= (#[trigger] crate::grids::temp_grid_map(
                        bf.temperature_field,
                    )[p]) <= ambient + TEMP_JITTER_MILLI,
            decreases sy - y,
        {
            let mut z: usize = 0;
            while z < sz
                invariant
                    0 <= x < sx,
                    0 <= y < sy,
                    0 <= z <= sz,
                    bf.wf(),
                    bf.dims() == dims,
                    bf.map_size == old(bf).map_size,
                    bf.ambient_temp == ambient,
                    *bf == (crate::boarddata::BoardData {
                        temperature_field: bf.temperature_field,
                        ..*old(bf)
                    }),
                    forall|p: (int, int, int)|
                        crate::lighting::in_bounds_spec(dims, p) && (p.0 < x || (p.0 == x && p.1
                            < y) || (p.0 == x && p.1 == y && p.2 < z)) ==> ambient
                            - TEMP_JITTER_MILLI <= (#[trigger] crate::grids::temp_grid_map(
                            bf.temperature_field,
                        )[p]) <= ambient + TEMP_JITTER_MILLI,
                decreases sz - z,
            {
                let jitter: i64 = random_in_range(-TEMP_JITTER_MILLI, TEMP_JITTER_MILLI);
                crate::grids::temp_grid_set(&mut bf.temperature_field, x, y, z, ambient + jitter);
                z = z + 1;
            }
            y = y + 1;
        }
        x = x + 1;
    }
}

/// The free-neighbor scan of the 3-by-3 neighborhood of `(x, y, z)`: the
/// temperature sum and the cell count over the first `u` cells of the
/// fixed scan order, counting free cells only; a neighbor outside the
/// board counts as free ambient air.
pub open spec fn temp_scan(
    col: Map<(int, int, int), crate::fielddata::CollisionFieldData>,
    temps: Map<(int, int, int), i64>,
    size: (int, int, int),
    ambient: int,
    x: int,
    y: int,
    z: int,
    u: nat,
) -> (int, int)
    decreases u,
{
    if u == 0 {
        (0, 0)
    } else {
        let prev = temp_scan(col, temps, size, ambient, x, y, z, (u - 1) as nat);
        let np = (x + (u - 1) / 3 - 1, y + (u - 1) % 3 - 1, z);
        let nfree = if crate::lighting::in_bounds_spec(size, np) {
            col[np].player_free
        } else {
            true
        };
        let ntemp = if crate::lighting::in_bounds_spec(size, np) {
            temps[np] as int
        } else {
            ambient
        };
        if nfree {
            (prev.0 + ntemp, prev.1 + 1)
        } else {
            prev
        }
    }
}

/// One tile of a smoothing sweep: a player-free tile takes the floored
/// mean of its free neighborhood; a blocked tile keeps its value.
pub open spec fn temp_tile_step(
    col: Map<(int, int, int), crate::fielddata::CollisionFieldData>,
    temps: Map<(int, int, int), i64>,
    size: (int, int, int),
    ambient: int,
    x: int,
    y: int,
    z: int,
) -> Map<(int, int, int), i64> {
    if col[(x, y, z)].player_free {
        let scan = temp_scan(col, temps, size, ambient, x, y, z, 9nat);
        if scan.1 > 0 {
            temps.insert((x, y, z), (scan.0 / scan.1) as i64)
        } else {
            temps
        }
    } else {
        temps
    }
}

/// The temperature field after the first `t` tiles of one smoothing sweep,
/// in board-scan order; updated values feed the tiles scanned after them.
pub open spec fn temp_sweep_upto(
    col: Map<(int, int, int), crate::fielddata::CollisionFieldData>,
    size: (int, int, int),
    ambient: int,
    temps0: Map<(int, int, int), i64>,
    t: nat,
) -> Map<(int, int, int), i64>
    decreases t,
{
    if t == 0 {
        temps0
    } else {
        let prev = temp_sweep_upto(col, size, ambient, temps0, (t - 1) as nat);
        let p = crate::lighting::lin_tile(size, t - 1);
        temp_tile_step(col, prev, size, ambient, p.0, p.1, p.2)
    }
}

/// The temperature field after the given number of whole smoothing sweeps.
pub open spec fn temp_smooth_spec(
    col: Map<(int, int, int), crate::fielddata::CollisionFieldData>,
    size: (int, int, int),
    ambient: int,
    temps0: Map<(int, int, int), i64>,
    iters: nat,
) -> Map<(int, int, int), i64>
    decreases iters,
{
    if iters == 0 {
        temps0
    } else {
        temp_sweep_upto(
            col,
            size,
            ambient,
            temp_smooth_spec(col, size, ambient, temps0, (iters - 1) as nat),
            (size.0 * size.1 * size.2) as nat,
        )
    }
}

/// Relaxes the temperature field by repeated neighbor averaging over
/// player-free tiles: each free tile takes the mean of its free 3-by-3
/// neighborhood, with out-of-bounds neighbors counted as free ambient air.
/// The result is exactly `temp_smooth_spec` of the starting field, and the
/// field never leaves the jitter envelope around the ambient value.
#[verifier::loop_isolation(false)]
pub fn smooth_temperatures(bf: &mut crate::boarddata::BoardData, iterations: usize)
    requires
        old(bf).wf(),
        -1000000000 <= old(bf).ambient_temp <= 1000000000,
        temps_in_envelope(*old(bf)),
    ensures
        final(bf).wf(),
        *final(bf) == (crate::boarddata::BoardData {
            temperature_field: final(bf).temperature_field,
            ..*old(bf)
        }),
        temps_in_envelope(*final(bf)),
        crate::grids::temp_grid_map(final(bf).temperature_field) == temp_smooth_spec(
            crate::grids::collision_grid_map(old(bf).collision_field),
            old(bf).dims(),
            old(bf).ambient_temp as int,
            crate::grids::temp_grid_map(old(bf).temperature_field),
            iterations as nat,
        ),
{
    let ghost colmap = crate::grids::collision_grid_map(bf.collision_field);
    let ghost tmap0 = crate::grids::temp_grid_map(bf.temperature_field);
    let ghost dims = bf.dims();
    let ambient: i64 = bf.ambient_temp;
    let lo: i64 = ambient - TEMP_JITTER_MILLI;
    let hi: i64 = ambient + TEMP_JITTER_MILLI;
    let (sx, sy, sz): (usize, usize, usize) = bf.map_size;
    let mut it: usize = 0;
    proof {
        assert(temp_smooth_spec(colmap, dims, ambient as int, tmap0, 0nat) == tmap0);
    }
    while it < iterations
        invariant
            0 <= it <= iterations,
            bf.wf(),
            bf.dims() == dims,
            bf.map_size == old(bf).map_size,
            bf.ambient_temp == ambient,
            lo == ambient - TEMP_JITTER_MILLI,
            hi == ambient + TEMP_JITTER_MILLI,
            *bf == (crate::boarddata::BoardData {
                temperature_field: bf.temperature_field,
                ..*old(bf)
            }),
            temps_in_envelope(*bf),
            crate::grids::temp_grid_map(bf.temperature_field) == temp_smooth_spec(
                colmap,
                dims,
                ambient as int,
                tmap0,
                it as nat,
            ),
        decreases iterations - it,
    {
        let ghost base = crate::grids::temp_grid_map(bf.temperature_field);
        let mut x: usize = 0;
        proof {
            assert(0 * sy * sz == 0) by (nonlinear_arith);
        }
        while x < sx
            invariant
                0 <= x <= sx,
                bf.wf(),
                bf.dims() == dims,
                bf.map_size == old(bf).map_size,
                bf.ambient_temp == ambient,
                lo == ambient - TEMP_JITTER_MILLI,
                hi == ambient + TEMP_JITTER_MILLI,
                *bf == (crate::boarddata::BoardData {
                    temperature_field: bf.temperature_field,
                    ..*old(bf)
                }),
                temps_in_envelope(*bf),
                base == temp_smooth_spec(colmap, dims, ambient as int, tmap0, it as nat),
                crate::grids::temp_grid_map(bf.temperature_field) == temp_sweep_upto(
                    colmap,
                    dims,
                    ambient as int,
                    base,
                    (x * sy * sz) as nat,
                ),
            decreases sx - x,
        {
            let mut y: usize = 0;
            proof {
                assert(x * sy * sz == (x * sy + 0) * sz) by (nonlinear_arith);
            }
            while y < sy
                invariant
                    0 <= x < sx,
                    0 <= y <= sy,
                    bf.wf(),
                    bf.dims() == dims,
                    bf.map_size == old(bf).map_size,
                    bf.ambient_temp == ambient,
                    lo == ambient - TEMP_JITTER_MILLI,
                    hi == ambient + TEMP_JITTER_MILLI,
                    *bf == (crate::boarddata::BoardData {
                        temperature_field: bf.temperature_field,
                        ..*old(bf)
                    }),
                    temps_in_envelope(*bf),
                    base == temp_smooth_spec(colmap, dims, ambient as int, tmap0, it as nat),
                    crate::grids::temp_grid_map(bf.temperature_field) == temp_sweep_upto(
                        colmap,
                        dims,
                        ambient as int,
                        base,
                        ((x * sy + y) * sz) as nat,
                    ),
                decreases sy - y,
            {
                let mut z: usize = 0;
                while z < sz
                    invariant
                        0 <= x < sx,
                        0 <= y < sy,
                        0 <= z <= sz,
                        bf.wf(),
                        bf.dims() == dims,
                        bf.map_size == old(bf).map_size,
                        bf.ambient_temp == ambient,
                        lo == ambient - TEMP_JITTER_MILLI,
                        hi == ambient + TEMP_JITTER_MILLI,
                        *bf == (crate::boarddata::BoardData {
                            temperature_field: bf.temperature_field,
                            ..*old(bf)
                        }),
                        temps_in_envelope(*bf),
                        base == temp_smooth_spec(colmap, dims, ambient as int, tmap0, it as nat),
                        crate::grids::temp_grid_map(bf.temperature_field) == temp_sweep_upto(
                            colmap,
                            dims,
                            ambient as int,
                            base,
                            ((x * sy + y) * sz + z) as nat,
                        ),
                    decreases sz - z,
                {
                    let ghost pre_tile = crate::grids::temp_grid_map(bf.temperature_field);
                    proof {
                        crate::lighting::lemma_lin_tile(dims, x as int, y as int, z as int);
                    }
                    let center_free: bool = crate::grids::collision_grid_get(
                        &bf.collision_field,
                        x,
                        y,
                        z,
                    ).player_free;
                    if center_free {
                        let mut t_sum: i64 = 0;
                        let mut count: i64 = 0;
                        let mut u: usize = 0;
                        while u < 9
                            invariant
                                0 <= u <= 9,
                                0 <= count <= u,
                                (count as int) * (lo as int) <= t_sum as int <= (count as int) * (
                                hi as int),
                                -9090000000 <= t_sum <= 9090000000,
                                lo <= hi,
                                -1000000000 <= ambient <= 1000000000,
                                bf.wf(),
                                bf.dims() == dims,
                                temps_in_envelope(*bf),
                                bf.ambient_temp == ambient,
                                0 <= x < sx && 0 <= y < sy && 0 <= z < sz,
                                crate::grids::temp_grid_map(bf.temperature_field) == pre_tile,
                                colmap == crate::grids::collision_grid_map(bf.collision_field),
                                (t_sum as int, count as int) == temp_scan(
                                    colmap,
                                    pre_tile,
                                    dims,
                                    ambient as int,
                                    x as int,
                                    y as int,
                                    z as int,
                                    u as nat,
                                ),
                            decreases 9 - u,
                        {
                            let du: i64 = (u / 3) as i64 - 1;
                            let dv: i64 = (u % 3) as i64 - 1;
                            let nx: i64 = x as i64 + du;
                            let ny: i64 = y as i64 + dv;
                            let (nfree, ntemp): (bool, i64) = if crate::lighting::is_in_bounds(
                                (nx, ny, z as i64),
                                bf.map_size,
                            ) {
                                let cf = crate::grids::collision_grid_get(
                                    &bf.collision_field,
                                    nx as usize,
                                    ny as usize,
                                    z,
                                );
                                let tv = crate::grids::temp_grid_get(
                                    &bf.temperature_field,
                                    nx as usize,
                                    ny as usize,
                                    z,
                                );
                                (cf.player_free, tv)
                            } else {
                                (true, ambient)
                            };
                            if nfree {
                                proof {
                                    assert((count as int + 1) * (lo as int) == (count as int) * (
                                    lo as int) + lo as int) by (nonlinear_arith);
                                    assert((count as int + 1) * (hi as int) == (count as int) * (
                                    hi as int) + hi as int) by (nonlinear_arith);
                                    assert((count as int + 1) * (lo as int) >= -9090000000
                                        && (count as int + 1) * (hi as int) <= 9090000000)
                                        by (nonlinear_arith)
                                        requires
                                            0 <= count <= 8,
                                            -1010000000 <= lo <= hi <= 1010000000,
                                    ;
                                }
                                t_sum = t_sum + ntemp;
                                count = count + 1;
                            }
                            u = u + 1;
                        }
                        if count > 0 {
                            let avg: i64 = floor_div_i64(t_sum, count);
                            proof {
                                vstd::arithmetic::div_mod::lemma_div_multiples_vanish(
                                    lo as int,
                                    count as int,
                                );
                                vstd::arithmetic::div_mod::lemma_div_multiples_vanish(
                                    hi as int,
                                    count as int,
                                );
                                assert((count as int) * (lo as int) == (lo as int) * (count as int))
                                    by (nonlinear_arith);
                                assert((count as int) * (hi as int) == (hi as int) * (count as int))
                                    by (nonlinear_arith);
                                vstd::arithmetic::div_mod::lemma_div_is_ordered(
                                    (count as int) * (lo as int),
                                    t_sum as int,
                                    count as int,
                                );
                                vstd::arithmetic::div_mod::lemma_div_is_ordered(
                                    t_sum as int,
                                    (count as int) * (hi as int),
                                    count as int,
                                );
                            }
                            crate::grids::temp_grid_set(&mut bf.temperature_field, x, y, z, avg);
                        }
                    }
                    proof {
                        assert(crate::grids::temp_grid_map(bf.temperature_field) == temp_tile_step(
                            colmap,
                            pre_tile,
                            dims,
                            ambient as int,
                            x as int,
                            y as int,
                            z as int,
                        ));
                    }
                    z = z + 1;
                }
                proof {
                    assert((x * sy + y) * sz + sz == (x * sy + y + 1) * sz) by (nonlinear_arith);
                }
                y = y + 1;
            }
            proof {
                assert((x * sy + sy) * sz == (x + 1) * sy * sz) by (nonlinear_arith);
            }
            x = x + 1;
        }
        proof {
            assert(sx * sy * sz == (sx * sy) * sz) by (nonlinear_arith);
            assert(crate::grids::temp_grid_map(bf.temperature_field) == temp_smooth_spec(
                colmap,
                dims,
                ambient as int,
                tmap0,
                (it + 1) as nat,
            ));
        }
        it = it + 1;
    }
}

} // verus!

verus! {

/// Ceiling on an accumulated shadow-path lux, in milli-lux; deposits
/// saturate here instead of overflowing.
pub const SHADOW_LUX_CAP: i64 = 3000000000;

/// Ceiling on an accumulated transmissivity product, in milli-units.
pub const TRANS_CAP: i64 = 1000000;

/// Reciprocal bleed width of the soft shadow threshold, as a ratio: the
/// argument is scaled by 5/4 (one over 0.8 tiles) before the soft step.
pub const BLEED_NUM: i64 = 5;

/// A table distance within the 32-tile radius is at most 46 tiles in
/// milli-units.
pub proof fn lemma_isqrt_small(dx: int, dy: int, d: int)
    requires
        -32 <= dx <= 32,
        -32 <= dy <= 32,
        is_isqrt((dx * dx + dy * dy) * 1000000, d),
    ensures
        0 <= d <= 46000,
{
    assert(0 <= dx * dx <= 1024 && 0 <= dy * dy <= 1024) by (nonlinear_arith)
        requires
            -32 <= dx <= 32 && -32 <= dy <= 32,
    ;
    if d > 46000 {
        assert(d * d >= 46001 * 46001) by (nonlinear_arith)
            requires
                d >= 46001,
        ;
        assert(false);
    }
}

/// Saturating addition: the exact sum where it fits, clamped at the given
/// symmetric magnitude otherwise.
pub fn sat_add_i64(a: i64, b: i64, cap: i64) -> (r: i64)
    requires
        0 < cap <= 1000000000000000000,
        -cap <= a <= cap,
        -cap <= b <= cap,
    ensures
        r as int == sat_add_spec(a as int, b as int, cap as int),
        -cap <= r <= cap,
        -cap <= a + b <= cap ==> r == a + b,
{
    let s: i64 = a + b;
    if s > cap {
        cap
    } else if s < -cap {
        -cap
    } else {
        s
    }
}

/// The soft shadow threshold: a smooth ramp from fully shadowed (0) to
/// fully lit (1000 milli) as `x` (in milli-tiles) crosses zero, computed
/// with a rational approximation of a hyperbolic-tangent step of bleed
/// width 0.8 tiles.
pub open spec fn soft_threshold_spec(x: int) -> int {
    let u = crate::boardposition::clamp_spec(x * (BLEED_NUM as int) / 4, -3000, 3000);
    let t = (u * (27000000 + u * u)) / (27000000 + 9 * (u * u));
    (crate::boardposition::clamp_spec(t, -1000, 1000) + 1000) / 2
}

/// Computes the soft shadow threshold in milli-units.
pub fn soft_threshold(x: i64) -> (r: i64)
    requires
        -100000000 <= x <= 100000000,
    ensures
        r == soft_threshold_spec(x as int),
        0 <= r <= 1000,
{
    let scaled: i64 = floor_div_i64(x * BLEED_NUM, 4);
    let u: i64 = crate::boardposition::clamp_i64(scaled, -3000, 3000);
    proof {
        assert(0 <= (u as int) * (u as int) <= 9000000) by (nonlinear_arith)
            requires
                -3000 <= u <= 3000,
        ;
        assert(-108000000000 <= (u as int) * (27000000 + (u as int) * (u as int))
            <= 108000000000) by (nonlinear_arith)
            requires
                -3000 <= u <= 3000 && 0 <= (u as int) * (u as int) <= 9000000,
        ;
    }
    let num: i64 = u * (27000000 + u * u);
    let den: i64 = 27000000 + 9 * (u * u);
    let t: i64 = floor_div_i64(num, den);
    let tc: i64 = crate::boardposition::clamp_i64(t, -1000, 1000);
    (tc + 1000) / 2
}

/// Every entry of the scratch sector carries a lux within the shadow cap
/// and a transmissivity within its own cap.
pub open spec fn sector_lux_ok(s: LightFieldSector) -> bool {
    forall|i: int|
        0 <= i < s.field@.len() ==> 0 <= (#[trigger] s.field@[i]).lux <= SHADOW_LUX_CAP && 0
            <= s.field@[i].transmissivity <= TRANS_CAP && -1000000000000
            <= s.field@[i].additional.infrared <= 1000000000000 && -1000000000000
            <= s.field@[i].additional.ultraviolet <= 1000000000000 && -1000000000000
            <= s.field@[i].additional.red <= 1000000000000
}

/// Saturating addition as a value: the exact sum clamped at the cap.
pub open spec fn sat_add_spec(a: int, b: int, cap: int) -> int {
    if a + b > cap {
        cap
    } else if a + b < -cap {
        -cap
    } else {
        a + b
    }
}

/// The integer square root as a value.
pub open spec fn isqrt_of(n: int) -> int {
    choose|r: int| is_isqrt(n, r)
}

/// The integer square root is unique, so any witness is the value.
pub proof fn lemma_isqrt_of(n: int, r: int)
    requires
        is_isqrt(n, r),
    ensures
        isqrt_of(n) == r,
{
    assert(exists|q: int| is_isqrt(n, q));
    let rr = isqrt_of(n);
    assert(is_isqrt(n, rr));
    if rr < r {
        assert((rr + 1) * (rr + 1) <= r * r) by (nonlinear_arith)
            requires
                0 <= rr + 1 <= r,
        ;
        assert(false);
    }
    if r < rr {
        assert((r + 1) * (r + 1) <= rr * rr) by (nonlinear_arith)
            requires
                0 <= r + 1 <= rr,
        ;
        assert(false);
    }
}

/// The Euclidean distance of an offset in milli-tiles, as the lookup
/// tables hold it.
pub open spec fn dist_spec(dx: int, dy: int) -> int {
    isqrt_of((dx * dx + dy * dy) * 1000000)
}

/// The sector index of plane coordinates on a sector anchored at the
/// origin.
pub open spec fn scoord(sx: int, sy: int, x: int, y: int) -> int {
    sector_coord_spec(0, 0, sx, sy, x, y)
}

/// The all-dark scratch plane of a board of `sx` by `sy` tiles.
pub open spec fn sector_dark_seq(sx: int, sy: int) -> Seq<LightFieldData> {
    Seq::new((sx * sy + 15000) as nat, |i: int| LightFieldData::dark_spec())
}

/// The scratch plane after the first `k` snapshot entities deposited their
/// emission: lux accumulates (saturating at the cap), the transmissivity
/// factors multiply and clamp just above zero, the extra channels add.
pub open spec fn collect_emission_upto(
    snap: Seq<crate::behavior::EntitySnapshot>,
    sx: int,
    sy: int,
    s0: Seq<LightFieldData>,
    k: nat,
) -> Seq<LightFieldData>
    decreases k,
{
    if k == 0 {
        s0
    } else {
        let prev = collect_emission_upto(snap, sx, sy, s0, (k - 1) as nat);
        let e = snap[k - 1];
        let c = scoord(sx, sy, e.pos.x as int, e.pos.y as int);
        let src = prev[c];
        let new_lux = if src.lux > SHADOW_LUX_CAP - e.props.light.lux {
            SHADOW_LUX_CAP as i64
        } else {
            (src.lux + e.props.light.lux) as i64
        };
        let raw_trans = if src.transmissivity >= 0 {
            (e.props.light.transmissivity * src.transmissivity) / 1000
        } else {
            0
        };
        let new_trans = crate::boardposition::clamp_spec(raw_trans, 1, TRANS_CAP as int) as i64;
        let na = crate::fielddata::LightData {
            infrared: sat_add_spec(
                src.additional.infrared as int,
                e.props.light.additional.infrared as int,
                1000000000000,
            ) as i64,
            ultraviolet: sat_add_spec(
                src.additional.ultraviolet as int,
                e.props.light.additional.ultraviolet as int,
                1000000000000,
            ) as i64,
            red: sat_add_spec(
                src.additional.red as int,
                e.props.light.additional.red as int,
                1000000000000,
            ) as i64,
        };
        prev.update(
            c,
            LightFieldData {
                lux: new_lux,
                transmissivity: new_trans,
                color: src.color,
                additional: na,
            },
        )
    }
}

/// The smallest lux and transmissivity over the first `k` tiles of a
/// neighborhood scan.
pub open spec fn min_scan(
    s: Seq<LightFieldData>,
    sx: int,
    sy: int,
    x1: int,
    y1: int,
    side_y: int,
    k: nat,
) -> (int, int)
    decreases k,
{
    if k == 0 {
        (i64::MAX as int, 2000)
    } else {
        let prev = min_scan(s, sx, sy, x1, y1, side_y, (k - 1) as nat);
        let t = crate::boardposition::rect_tile(x1, y1, side_y, 0, k - 1);
        let l = s[scoord(sx, sy, t.x as int, t.y as int)];
        (min_spec(prev.0, l.lux as int), min_spec(prev.1, l.transmissivity as int))
    }
}

/// One opaque pillar's shadow marks over the first `j - r0` entries of its
/// bucket range: each covered bucket keeps the nearer distance.
pub open spec fn sd_pillar_upto(
    sd0: Seq<i64>,
    angle: int,
    r0: int,
    dist: int,
    j: int,
) -> Seq<i64>
    decreases j - r0,
{
    if j <= r0 {
        sd0
    } else {
        let prev = sd_pillar_upto(sd0, angle, r0, dist, j - 1);
        let a = (angle + (j - 1) + 96) % 96;
        prev.update(a, min_spec(prev[a] as int, dist) as i64)
    }
}

/// The per-bucket shadow distances after the first `k` neighborhood tiles
/// were examined: every opaque tile splats its distance over the buckets
/// its unit width subtends.
pub open spec fn sd_scan(
    s: Seq<LightFieldData>,
    sx: int,
    sy: int,
    rx: int,
    ry: int,
    far: int,
    x1: int,
    y1: int,
    side_y: int,
    k: nat,
) -> Seq<i64>
    decreases k,
{
    if k == 0 {
        Seq::new(96, |i: int| far as i64)
    } else {
        let prev = sd_scan(s, sx, sy, rx, ry, far, x1, y1, side_y, (k - 1) as nat);
        let t = crate::boardposition::rect_tile(x1, y1, side_y, 0, k - 1);
        let lf = s[scoord(sx, sy, t.x as int, t.y as int)];
        if lf.transmissivity < 500 {
            let dist = dist_spec(t.x - rx, t.y - ry);
            let angle = angle_bucket_spec(t.x - rx, t.y - ry);
            let ar = angle_range_spec(t.x - rx, t.y - ry);
            sd_pillar_upto(prev, angle, ar.0, dist, ar.1 + 1)
        } else {
            prev
        }
    }
}

/// The scratch plane after the first `k` neighborhood tiles took their
/// inverse-square share of the redistributed lux, softened across the
/// shadow boundary and saturating at the cap.
pub open spec fn apply_scan(
    s: Seq<LightFieldData>,
    sx: int,
    sy: int,
    rx: int,
    ry: int,
    sd: Seq<i64>,
    src_lux: int,
    x1: int,
    y1: int,
    side_y: int,
    k: nat,
) -> Seq<LightFieldData>
    decreases k,
{
    if k == 0 {
        s
    } else {
        let prev = apply_scan(s, sx, sy, rx, ry, sd, src_lux, x1, y1, side_y, (k - 1) as nat);
        let t = crate::boardposition::rect_tile(x1, y1, side_y, 0, k - 1);
        let dist = dist_spec(t.x - rx, t.y - ry);
        let dist2 = dist + 4000;
        let a = angle_bucket_spec(t.x - rx, t.y - ry);
        let sdv = sd[a] as int;
        if dist - 3000 < sdv {
            let f = soft_threshold_spec(sdv - dist - 500);
            let lux_add = src_lux * 1000000 / (dist2 * dist2) / 2;
            let add = lux_add * f / 1000;
            let c = scoord(sx, sy, t.x as int, t.y as int);
            let curv = prev[c];
            let nl = if curv.lux > SHADOW_LUX_CAP - add {
                SHADOW_LUX_CAP as i64
            } else {
                (curv.lux + add) as i64
            };
            prev.update(c, LightFieldData { lux: nl, ..curv })
        } else {
            prev
        }
    }
}

/// The pass radius of a shadow step.
pub open spec fn shadow_step_radius(step: int) -> int {
    if step == 0 {
        26
    } else if step == 1 {
        8
    } else {
        6
    }
}

/// One source tile of one shadow pass: skip dim or over-bright tiles and,
/// on the smoothing passes, neighborhoods without nearby walls; otherwise
/// take the redistributed share off the source tile, cast per-bucket
/// shadow distances from the opaque neighbors, and deposit the softened
/// inverse-square share over the neighborhood.
pub open spec fn shadow_tile_step(
    src: LightFieldData,
    s: Seq<LightFieldData>,
    sx: int,
    sy: int,
    x: int,
    y: int,
    step: int,
) -> Seq<LightFieldData> {
    let min_lux: int = if step == 0 {
        1
    } else {
        0
    };
    let max_lux: int = if step == 0 {
        i64::MAX as int
    } else if step == 1 {
        10000000
    } else {
        1000000
    };
    if src.lux < min_lux || src.lux > max_lux {
        s
    } else {
        let x1a = crate::boardposition::clamp_spec(x - 1, 0, sx - 1);
        let x2a = crate::boardposition::clamp_spec(x + 1, 0, sx - 1);
        let y1a = crate::boardposition::clamp_spec(y - 1, 0, sy - 1);
        let y2a = crate::boardposition::clamp_spec(y + 1, 0, sy - 1);
        let m = min_scan(s, sx, sy, x1a, y1a, y2a - y1a + 1, ((x2a - x1a + 1) * (y2a - y1a + 1)) as nat);
        let skip = step > 0 && m.1 > 700 && (m.0 >= 100000000000 || src.lux * 10 < m.0 * 19 + 2);
        if skip {
            s
        } else {
            let src_lux: int = if step > 0 {
                src.lux * 2 / 11
            } else {
                src.lux * 100 / 101
            };
            let rc = scoord(sx, sy, x, y);
            let root_left: int = if s[rc].lux >= src_lux {
                s[rc].lux - src_lux
            } else {
                0
            };
            let s1 = s.update(rc, LightFieldData { lux: root_left as i64, ..s[rc] });
            let size_r = shadow_step_radius(step);
            let x1 = crate::boardposition::clamp_spec(x - size_r, 0, sx - 1);
            let x2 = crate::boardposition::clamp_spec(x + size_r, 0, sx - 1);
            let y1 = crate::boardposition::clamp_spec(y - size_r, 0, sy - 1);
            let y2 = crate::boardposition::clamp_spec(y + size_r, 0, sy - 1);
            let n = ((x2 - x1 + 1) * (y2 - y1 + 1)) as nat;
            let far = (size_r + 1) * 1000;
            let sd = sd_scan(s1, sx, sy, x, y, far, x1, y1, y2 - y1 + 1, n);
            let sd2 = if src.transmissivity < 500 {
                Seq::new(96, |i: int| 0i64)
            } else {
                sd
            };
            apply_scan(s1, sx, sy, x, y, sd2, src_lux, x1, y1, y2 - y1 + 1, n)
        }
    }
}

/// The scratch plane after the first `t` tiles of one shadow pass, in
/// board-scan order; sources read their strength from the pass-start
/// snapshot `s_snap`, deposits land in the working plane.
pub open spec fn shadow_sweep_upto(
    s_snap: Seq<LightFieldData>,
    s0: Seq<LightFieldData>,
    sx: int,
    sy: int,
    step: int,
    t: nat,
) -> Seq<LightFieldData>
    decreases t,
{
    if t == 0 {
        s0
    } else {
        let prev = shadow_sweep_upto(s_snap, s0, sx, sy, step, (t - 1) as nat);
        let p = crate::lighting::lin_tile((sx, sy, 1), t - 1);
        shadow_tile_step(s_snap[scoord(sx, sy, p.0, p.1)], prev, sx, sy, p.0, p.1, step)
    }
}

/// One whole shadow pass over the plane.
pub open spec fn shadow_pass_spec(s: Seq<LightFieldData>, sx: int, sy: int, step: int) -> Seq<
    LightFieldData,
> {
    shadow_sweep_upto(s, s, sx, sy, step, (sx * sy) as nat)
}

/// The scratch plane after the first `k` shadow passes.
pub open spec fn shadow_passes_upto(s: Seq<LightFieldData>, sx: int, sy: int, k: nat) -> Seq<
    LightFieldData,
>
    decreases k,
{
    if k == 0 {
        s
    } else {
        shadow_pass_spec(shadow_passes_upto(s, sx, sy, (k - 1) as nat), sx, sy, k - 1)
    }
}

/// The finished scratch plane of the whole shadow rebuild: emission
/// collection, then the three passes of decreasing radius.
pub open spec fn shadow_field_spec(
    snap: Seq<crate::behavior::EntitySnapshot>,
    sx: int,
    sy: int,
) -> Seq<LightFieldData> {
    shadow_passes_upto(
        collect_emission_upto(snap, sx, sy, sector_dark_seq(sx, sy), snap.len()),
        sx,
        sy,
        3nat,
    )
}

/// Scans a neighborhood for opaque tiles and returns the per-bucket
/// shadow distances: exactly `sd_scan` over the working plane.
#[verifier::loop_isolation(false)]
#[verifier::rlimit(60)]
fn scan_shadow_distances(
    lfs: &LightFieldSector,
    cbp: &CachedBoardPos,
    nbors_buf: &Vec<BoardPosition>,
    x: usize,
    y: usize,
    far: i64,
    sx: usize,
    sy: usize,
    Ghost(gx1): Ghost<int>,
    Ghost(gy1): Ghost<int>,
    Ghost(gside): Ghost<int>,
) -> (r: Vec<i64>)
    requires
        lfs.wf(),
        lfs.min_x == 0 && lfs.min_y == 0,
        lfs.sz_x == sx && lfs.sz_y == sy,
        sector_lux_ok(*lfs),
        cbp.wf(),
        x < sx && y < sy,
        1 <= sx <= 1024 && 1 <= sy <= 1024,
        1000 <= far <= 27000,
        forall|w: int|
            0 <= w < nbors_buf@.len() ==> #[trigger] nbors_buf@[w]
                == crate::boardposition::rect_tile(gx1, gy1, gside, 0, w),
        forall|w: int|
            0 <= w < nbors_buf@.len() ==> -32 <= (#[trigger] nbors_buf@[w]).x - (x as i64) <= 32
                && -32 <= nbors_buf@[w].y - (y as i64) <= 32 && 0 <= nbors_buf@[w].x < sx && 0
                <= nbors_buf@[w].y < sy,
    ensures
        r@.len() == 96,
        forall|w: int| 0 <= w < 96 ==> 0 <= #[trigger] r@[w] <= 27000,
        r@ == sd_scan(
            lfs.field@,
            sx as int,
            sy as int,
            x as int,
            y as int,
            far as int,
            gx1,
            gy1,
            gside,
            nbors_buf@.len() as nat,
        ),
{
    let root_pos = BoardPosition { x: x as i64, y: y as i64, z: 0 };
    let ghost s1 = lfs.field@;
    let mut shadow_dist: Vec<i64> = Vec::new();
    let mut si: usize = 0;
    while si < 96
        invariant
            0 <= si <= 96,
            shadow_dist@.len() == si,
            forall|w: int| 0 <= w < si ==> #[trigger] shadow_dist@[w] == far,
            1000 <= far <= 27000,
        decreases 96 - si,
    {
        shadow_dist.push(far);
        si = si + 1;
    }
    proof {
        assert(shadow_dist@ =~= sd_scan(
            s1,
            sx as int,
            sy as int,
            x as int,
            y as int,
            far as int,
            gx1,
            gy1,
            gside,
            0nat,
        ));
    }
    let mut i: usize = 0;
    while i < nbors_buf.len()
        invariant
            0 <= i <= nbors_buf@.len(),
            shadow_dist@.len() == 96,
            forall|w: int| 0 <= w < 96 ==> 0 <= #[trigger] shadow_dist@[w] <= 27000,
            shadow_dist@ == sd_scan(
                s1,
                sx as int,
                sy as int,
                x as int,
                y as int,
                far as int,
                gx1,
                gy1,
                gside,
                i as nat,
            ),
        decreases nbors_buf@.len() - i,
    {
        let pillar = nbors_buf[i];
        let lf = match lfs.get_pos(&pillar) {
            Some(v) => v,
            None => crate::fielddata::LightFieldData::dark(),
        };
        if lf.transmissivity < 500 {
            let min_dist: i64 = cbp.bpos_dist(&root_pos, &pillar);
            let angle: i64 = cbp.bpos_angle(&root_pos, &pillar);
            let ar = cbp.bpos_angle_range(&root_pos, &pillar);
            proof {
                lemma_isqrt_small(
                    (pillar.x - root_pos.x) as int,
                    (pillar.y - root_pos.y) as int,
                    min_dist as int,
                );
                lemma_isqrt_of(
                    ((pillar.x - root_pos.x) * (pillar.x - root_pos.x) + (pillar.y - root_pos.y)
                        * (pillar.y - root_pos.y)) * 1000000,
                    min_dist as int,
                );
            }
            let ghost sd_base = shadow_dist@;
            let mut dd: i64 = ar.0;
            while dd <= ar.1
                invariant
                    ar.0 <= dd <= ar.1 + 1,
                    -96 <= ar.0 <= 0 <= ar.1 <= 96,
                    0 <= angle < 96,
                    0 <= min_dist <= 46000,
                    shadow_dist@.len() == 96,
                    forall|w: int| 0 <= w < 96 ==> 0 <= #[trigger] shadow_dist@[w] <= 27000,
                    shadow_dist@ == sd_pillar_upto(
                        sd_base,
                        angle as int,
                        ar.0 as int,
                        min_dist as int,
                        dd as int,
                    ),
                decreases ar.1 + 1 - dd,
            {
                let ang: usize = ((angle + dd + 96) % 96) as usize;
                proof {
                    vstd::arithmetic::div_mod::lemma_mod_bound((angle + dd + 96) as int, 96);
                }
                let curv = shadow_dist[ang];
                let newv: i64 = if min_dist < curv {
                    min_dist
                } else {
                    curv
                };
                shadow_dist.set(ang, newv);
                dd = dd + 1;
            }
        }
        i = i + 1;
    }
    shadow_dist
}

/// Deposits the redistributed share over a neighborhood, inverse-square
/// over the distance plus the light height and softened across the shadow
/// boundary: exactly `apply_scan` over the working plane.
#[verifier::loop_isolation(false)]
#[verifier::rlimit(60)]
fn apply_light_share(
    lfs: &mut LightFieldSector,
    cbp: &CachedBoardPos,
    nbors_buf: &Vec<BoardPosition>,
    shadow_dist: &Vec<i64>,
    src_lux: i64,
    x: usize,
    y: usize,
    sx: usize,
    sy: usize,
    Ghost(gx1): Ghost<int>,
    Ghost(gy1): Ghost<int>,
    Ghost(gside): Ghost<int>,
)
    requires
        old(lfs).wf(),
        old(lfs).min_x == 0 && old(lfs).min_y == 0,
        old(lfs).sz_x == sx && old(lfs).sz_y == sy,
        sector_lux_ok(*old(lfs)),
        cbp.wf(),
        x < sx && y < sy,
        1 <= sx <= 1024 && 1 <= sy <= 1024,
        0 <= src_lux <= SHADOW_LUX_CAP,
        shadow_dist@.len() == 96,
        forall|w: int| 0 <= w < 96 ==> 0 <= #[trigger] shadow_dist@[w] <= 27000,
        forall|w: int|
            0 <= w < nbors_buf@.len() ==> #[trigger] nbors_buf@[w]
                == crate::boardposition::rect_tile(gx1, gy1, gside, 0, w),
        forall|w: int|
            0 <= w < nbors_buf@.len() ==> -32 <= (#[trigger] nbors_buf@[w]).x - (x as i64) <= 32
                && -32 <= nbors_buf@[w].y - (y as i64) <= 32 && 0 <= nbors_buf@[w].x < sx && 0
                <= nbors_buf@[w].y < sy,
    ensures
        final(lfs).wf(),
        final(lfs).min_x == 0 && final(lfs).min_y == 0,
        final(lfs).sz_x == sx && final(lfs).sz_y == sy,
        final(lfs)._min_z == old(lfs)._min_z && final(lfs)._sz_z == old(lfs)._sz_z,
        sector_lux_ok(*final(lfs)),
        final(lfs).field@ == apply_scan(
            old(lfs).field@,
            sx as int,
            sy as int,
            x as int,
            y as int,
            shadow_dist@,
            src_lux as int,
            gx1,
            gy1,
            gside,
            nbors_buf@.len() as nat,
        ),
{
    let root_pos = BoardPosition { x: x as i64, y: y as i64, z: 0 };
    let ghost s1 = lfs.field@;
    let ghost sd2 = shadow_dist@;
    let mut i2: usize = 0;
    while i2 < nbors_buf.len()
        invariant
            0 <= i2 <= nbors_buf@.len(),
            lfs.wf(),
            lfs.min_x == 0 && lfs.min_y == 0,
            lfs.sz_x == sx && lfs.sz_y == sy,
            lfs._min_z == old(lfs)._min_z && lfs._sz_z == old(lfs)._sz_z,
            sector_lux_ok(*lfs),
            lfs.field@ == apply_scan(
                s1,
                sx as int,
                sy as int,
                x as int,
                y as int,
                sd2,
                src_lux as int,
                gx1,
                gy1,
                gside,
                i2 as nat,
            ),
        decreases nbors_buf@.len() - i2,
    {
        let nb = nbors_buf[i2];
        let dist: i64 = cbp.bpos_dist(&root_pos, &nb);
        proof {
            lemma_isqrt_small((nb.x - root_pos.x) as int, (nb.y - root_pos.y) as int, dist as int);
            lemma_isqrt_of(
                ((nb.x - root_pos.x) * (nb.x - root_pos.x) + (nb.y - root_pos.y) * (nb.y
                    - root_pos.y)) * 1000000,
                dist as int,
            );
        }
        let dist2: i64 = dist + 4000;
        let angle: i64 = cbp.bpos_angle(&root_pos, &nb);
        let sd: i64 = shadow_dist[angle as usize];
        if dist - 3000 < sd {
            proof {
                assert(16000000 <= (dist2 as int) * (dist2 as int) <= 2500000000)
                    by (nonlinear_arith)
                    requires
                        4000 <= dist2 <= 50000,
                ;
                assert(0 <= (src_lux as int) * 1000000 <= 3000000000000000) by (nonlinear_arith)
                    requires
                        0 <= src_lux <= 3000000000,
                ;
                let num = (src_lux as int) * 1000000;
                let den = (dist2 as int) * (dist2 as int);
                vstd::arithmetic::div_mod::lemma_div_pos_is_pos(num, den);
                vstd::arithmetic::div_mod::lemma_div_is_ordered(num, 3000000000000000, den);
                vstd::arithmetic::div_mod::lemma_div_is_ordered_by_denominator(
                    3000000000000000,
                    16000000,
                    den,
                );
                assert(3000000000000000int == 16000000int * 187500000);
                vstd::arithmetic::div_mod::lemma_div_multiples_vanish(187500000, 16000000);
                vstd::arithmetic::div_mod::lemma_div_pos_is_pos(num / den, 2);
                vstd::arithmetic::div_mod::lemma_div_is_ordered_by_denominator(num / den, 1, 2);
                vstd::arithmetic::div_mod::lemma_div_multiples_vanish(num / den, 1);
                assert(0 <= num / den / 2 <= 187500000);
            }
            let lux_add: i64 = src_lux * 1000000 / (dist2 * dist2) / 2;
            let f: i64 = soft_threshold(sd - dist - 500);
            proof {
                assert(0 <= (lux_add as int) * (f as int) <= 200000000000) by (nonlinear_arith)
                    requires
                        0 <= lux_add <= 187500000 && 0 <= f <= 1000,
                ;
                vstd::arithmetic::div_mod::lemma_div_pos_is_pos(
                    (lux_add as int) * (f as int),
                    1000,
                );
                vstd::arithmetic::div_mod::lemma_div_is_ordered(
                    (lux_add as int) * (f as int),
                    200000000000,
                    1000,
                );
            }
            let add: i64 = lux_add * f / 1000;
            let cur = match lfs.get_pos(&nb) {
                Some(v) => v,
                None => crate::fielddata::LightFieldData::dark(),
            };
            let new_lux: i64 = if cur.lux > SHADOW_LUX_CAP - add {
                SHADOW_LUX_CAP
            } else {
                cur.lux + add
            };
            lfs.insert(nb.x, nb.y, 0, crate::fielddata::LightFieldData { lux: new_lux, ..cur });
        }
        i2 = i2 + 1;
    }
}

/// Applies one source tile of one shadow pass to the working sector: the
/// result is exactly `shadow_tile_step` of the tile's pass-start strength
/// over the working plane.
#[verifier::loop_isolation(false)]
#[verifier::rlimit(100)]
fn shadow_one_tile(
    lfs: &mut LightFieldSector,
    src: LightFieldData,
    cbp: &CachedBoardPos,
    nbors_buf: &mut Vec<BoardPosition>,
    x: usize,
    y: usize,
    step: usize,
    sx: usize,
    sy: usize,
)
    requires
        old(lfs).wf(),
        old(lfs).min_x == 0 && old(lfs).min_y == 0,
        old(lfs).sz_x == sx && old(lfs).sz_y == sy,
        sector_lux_ok(*old(lfs)),
        cbp.wf(),
        x < sx,
        y < sy,
        step < 3,
        1 <= sx <= 1024,
        1 <= sy <= 1024,
        0 <= src.lux <= SHADOW_LUX_CAP,
    ensures
        final(lfs).wf(),
        final(lfs).min_x == 0 && final(lfs).min_y == 0,
        final(lfs).sz_x == sx && final(lfs).sz_y == sy,
        final(lfs)._min_z == old(lfs)._min_z && final(lfs)._sz_z == old(lfs)._sz_z,
        sector_lux_ok(*final(lfs)),
        final(lfs).field@ == shadow_tile_step(
            src,
            old(lfs).field@,
            sx as int,
            sy as int,
            x as int,
            y as int,
            step as int,
        ),
{
    let ghost s_in = lfs.field@;
    let root_pos = BoardPosition { x: x as i64, y: y as i64, z: 0 };
    let size_r: u32 = if step == 0 {
        26
    } else if step == 1 {
        8
    } else {
        6
    };
    let min_lux: i64 = if step == 0 {
        1
    } else {
        0
    };
    let max_lux: i64 = if step == 0 {
        i64::MAX
    } else if step == 1 {
        10000000
    } else {
        1000000
    };
    if src.lux < min_lux || src.lux > max_lux {
        return ;
    }
    if step > 0 {
        // No walls nearby means nothing to reflect: skip the smoothing
        // contribution for this neighborhood.
        root_pos._xy_neighbors_buf_clamped(1, nbors_buf, 0, sx as i64 - 1, 0, sy as i64 - 1);
        let ghost x1a = crate::boardposition::clamp_spec(x as int - 1, 0, sx as int - 1);
        let ghost y1a = crate::boardposition::clamp_spec(y as int - 1, 0, sy as int - 1);
        let ghost y2a = crate::boardposition::clamp_spec(y as int + 1, 0, sy as int - 1);
        let mut min_nb_lux: i64 = i64::MAX;
        let mut min_nb_trans: i64 = 2000;
        let mut i: usize = 0;
        while i < nbors_buf.len()
            invariant
                0 <= i <= nbors_buf@.len(),
                lfs.wf(),
                lfs.min_x == 0 && lfs.min_y == 0,
                lfs.sz_x == sx && lfs.sz_y == sy,
                sector_lux_ok(*lfs),
                lfs.field@ == s_in,
                0 <= min_nb_lux,
                forall|w: int|
                    0 <= w < nbors_buf@.len() ==> #[trigger] nbors_buf@[w]
                        == crate::boardposition::rect_tile(x1a, y1a, y2a - y1a + 1, 0, w),
                forall|w: int|
                    0 <= w < nbors_buf@.len() ==> 0 <= (#[trigger] nbors_buf@[w]).x < sx && 0
                        <= nbors_buf@[w].y < sy,
                (min_nb_lux as int, min_nb_trans as int) == min_scan(
                    s_in,
                    sx as int,
                    sy as int,
                    x1a,
                    y1a,
                    y2a - y1a + 1,
                    i as nat,
                ),
            decreases nbors_buf@.len() - i,
        {
            let nb = nbors_buf[i];
            match lfs.get_pos(&nb) {
                Some(l) => {
                    if l.lux < min_nb_lux {
                        min_nb_lux = l.lux;
                    }
                    if l.transmissivity < min_nb_trans {
                        min_nb_trans = l.transmissivity;
                    }
                },
                None => {},
            }
            i = i + 1;
        }
        if min_nb_trans > 700 && (min_nb_lux >= 100000000000 || src.lux * 10 < min_nb_lux * 19
            + 2) {
            return ;
        }
    }
    // How harsh the light is: the pass redistributes this share.
    let src_lux: i64 = if step > 0 {
        src.lux * 2 / 11
    } else {
        src.lux * 100 / 101
    };
    proof {
        vstd::arithmetic::div_mod::lemma_div_pos_is_pos(src.lux as int * 2, 11);
        vstd::arithmetic::div_mod::lemma_div_pos_is_pos(src.lux as int * 100, 101);
        vstd::arithmetic::div_mod::lemma_div_is_ordered(
            src.lux as int * 2,
            11 * (src.lux as int),
            11,
        );
        vstd::arithmetic::div_mod::lemma_div_is_ordered(
            src.lux as int * 100,
            101 * (src.lux as int),
            101,
        );
        vstd::arithmetic::div_mod::lemma_div_multiples_vanish(src.lux as int, 11);
        vstd::arithmetic::div_mod::lemma_div_multiples_vanish(src.lux as int, 101);
    }
    // Take the redistributed share off the source tile so it is not
    // counted twice.
    let cur_root = match lfs.get(x as i64, y as i64, 0) {
        Some(v) => v,
        None => crate::fielddata::LightFieldData::dark(),
    };
    let root_left: i64 = if cur_root.lux >= src_lux {
        cur_root.lux - src_lux
    } else {
        0
    };
    lfs.insert(
        x as i64,
        y as i64,
        0,
        crate::fielddata::LightFieldData { lux: root_left, ..cur_root },
    );
    root_pos._xy_neighbors_buf_clamped(size_r, nbors_buf, 0, sx as i64 - 1, 0, sy as i64 - 1);
    let ghost x1 = crate::boardposition::clamp_spec(x as int - size_r as int, 0, sx as int - 1);
    let ghost x2 = crate::boardposition::clamp_spec(x as int + size_r as int, 0, sx as int - 1);
    let ghost y1 = crate::boardposition::clamp_spec(y as int - size_r as int, 0, sy as int - 1);
    let ghost y2 = crate::boardposition::clamp_spec(y as int + size_r as int, 0, sy as int - 1);
    proof {
        assert forall|w: int|
            0 <= w < nbors_buf@.len() implies -32 <= (#[trigger] nbors_buf@[w]).x - (x as i64)
            <= 32 && -32 <= nbors_buf@[w].y - (y as i64) <= 32 && 0 <= nbors_buf@[w].x < sx && 0
            <= nbors_buf@[w].y < sy by {
            crate::boardposition::lemma_rect_index_bounds(x1, x2, y1, y2, w);
            assert(nbors_buf@[w] == crate::boardposition::rect_tile(x1, y1, y2 - y1 + 1, 0, w));
        }
    }
    let far: i64 = (size_r as i64 + 1) * 1000;
    let mut shadow_dist: Vec<i64> = scan_shadow_distances(
        lfs,
        cbp,
        nbors_buf,
        x,
        y,
        far,
        sx,
        sy,
        Ghost(x1),
        Ghost(y1),
        Ghost(y2 - y1 + 1),
    );
    if src.transmissivity < 500 {
        // An opaque source tile does not cast into the room: fully shadow
        // every direction.
        let mut w: usize = 0;
        while w < 96
            invariant
                0 <= w <= 96,
                shadow_dist@.len() == 96,
                forall|v: int| 0 <= v < w ==> #[trigger] shadow_dist@[v] == 0,
                forall|v: int| 0 <= v < 96 ==> 0 <= #[trigger] shadow_dist@[v] <= 27000,
            decreases 96 - w,
        {
            shadow_dist.set(w, 0);
            w = w + 1;
        }
        proof {
            assert(shadow_dist@ =~= Seq::new(96, |i: int| 0i64));
        }
    }
    apply_light_share(
        lfs,
        cbp,
        nbors_buf,
        &shadow_dist,
        src_lux,
        x,
        y,
        sx,
        sy,
        Ghost(x1),
        Ghost(y1),
        Ghost(y2 - y1 + 1),
    );
}

/// The full shadow-casting lighting rebuild, used when no usable static
/// bake exists: collect per-tile emission and transmissivity from the
/// snapshot, then run three passes of decreasing radius (26, 8 and 6
/// tiles). Each pass redistributes part of every lit tile's lux over its
/// neighborhood with inverse-square falloff, blocked directionally by
/// nearby opaque tiles via the precomputed angle tables and softened by
/// the hyperbolic-tangent-style threshold; the later passes act as
/// smoothing and skip neighborhoods without walls. The finished light
/// field is exactly `shadow_field_spec` of the snapshot, spread over every
/// vertical layer, and the average lux sets the global exposure.
#[verifier::loop_isolation(false)]
#[verifier::rlimit(100)]
pub fn shadow_rebuild(
    bf: &mut crate::boarddata::BoardData,
    snapshot: &Vec<crate::behavior::EntitySnapshot>,
)
    requires
        old(bf).wf(),
        crate::lighting::snapshot_in_bounds(snapshot@, old(bf).dims()),
        crate::lighting::snapshot_lights_ok(snapshot@),
        forall|e: int|
            0 <= e < snapshot@.len() ==> 0 <= (#[trigger] snapshot@[e]).props.light.transmissivity
                <= TRANS_CAP && -1000000000 <= snapshot@[e].props.light.additional.infrared
                <= 1000000000 && -1000000000 <= snapshot@[e].props.light.additional.ultraviolet
                <= 1000000000 && -1000000000 <= snapshot@[e].props.light.additional.red
                <= 1000000000,
    ensures
        final(bf).wf(),
        final(bf).map_size == old(bf).map_size,
        final(bf).collision_field == old(bf).collision_field,
        final(bf).temperature_field == old(bf).temperature_field,
        final(bf).prebaked_lighting == old(bf).prebaked_lighting,
        final(bf).ambient_temp == old(bf).ambient_temp,
        final(bf).pending == old(bf).pending,
        forall|p: (int, int, int)|
            crate::lighting::in_bounds_spec(old(bf).dims(), p) ==> (
            #[trigger] crate::grids::light_grid_map(final(bf).light_field)[p])
                == shadow_field_spec(snapshot@, old(bf).dims().0, old(bf).dims().1)[scoord(
                old(bf).dims().0,
                old(bf).dims().1,
                p.0,
                p.1,
            )],
        forall|p: (int, int, int)|
            crate::lighting::in_bounds_spec(old(bf).dims(), p) ==> 0 <= (
            #[trigger] crate::grids::light_grid_map(final(bf).light_field)[p]).lux
                <= SHADOW_LUX_CAP,
        final(bf).exposure_lux as int == crate::lighting::exposure_spec(
            crate::grids::light_grid_map(final(bf).light_field),
            old(bf).dims(),
        ),
{
    let ghost dims = bf.dims();
    let (sx, sy, sz): (usize, usize, usize) = bf.map_size;
    let cbp = CachedBoardPos::new();
    let mut lfs = LightFieldSector::new(0, 0, 0, sx as i64 - 1, sy as i64 - 1, 0);
    proof {
        assert(sx * sy * 1 == sx * sy) by (nonlinear_arith);
        assert(lfs.field@ =~= sector_dark_seq(sx as int, sy as int));
    }
    // Collect every entity's emission into its tile.
    let mut k: usize = 0;
    proof {
        assert(snapshot@.take(0) =~= Seq::<crate::behavior::EntitySnapshot>::empty());
    }
    while k < snapshot.len()
        invariant
            0 <= k <= snapshot@.len(),
            lfs.wf(),
            lfs.min_x == 0 && lfs.min_y == 0,
            lfs.sz_x == sx && lfs.sz_y == sy,
            sector_lux_ok(lfs),
            lfs.field@ == collect_emission_upto(
                snapshot@,
                sx as int,
                sy as int,
                sector_dark_seq(sx as int, sy as int),
                k as nat,
            ),
        decreases snapshot@.len() - k,
    {
        let e = snapshot[k];
        let src = match lfs.get_pos(&e.pos) {
            Some(v) => v,
            None => crate::fielddata::LightFieldData::dark(),
        };
        let new_lux: i64 = if src.lux > SHADOW_LUX_CAP - e.props.light.lux {
            SHADOW_LUX_CAP
        } else {
            src.lux + e.props.light.lux
        };
        proof {
            assert(0 <= (e.props.light.transmissivity as int) * (src.transmissivity as int)
                <= 1000000000000) by (nonlinear_arith)
                requires
                    0 <= e.props.light.transmissivity <= 1000000,
                    0 <= src.transmissivity <= 1000000,
            ;
        }
        let raw_trans: i64 = if src.transmissivity >= 0 {
            (e.props.light.transmissivity * src.transmissivity) / 1000
        } else {
            0
        };
        let new_trans: i64 = crate::boardposition::clamp_i64(raw_trans, 1, TRANS_CAP);
        let new_additional = crate::fielddata::LightData {
            infrared: sat_add_i64(
                src.additional.infrared,
                e.props.light.additional.infrared,
                1000000000000,
            ),
            ultraviolet: sat_add_i64(
                src.additional.ultraviolet,
                e.props.light.additional.ultraviolet,
                1000000000000,
            ),
            red: sat_add_i64(src.additional.red, e.props.light.additional.red, 1000000000000),
        };
        lfs.insert(
            e.pos.x,
            e.pos.y,
            e.pos.z,
            crate::fielddata::LightFieldData {
                lux: new_lux,
                transmissivity: new_trans,
                color: src.color,
                additional: new_additional,
            },
        );
        k = k + 1;
    }
    // Three passes of decreasing radius; later passes only smooth around
    // walls.
    let ghost s_collect = lfs.field@;
    let mut nbors_buf: Vec<BoardPosition> = Vec::new();
    let mut step: usize = 0;
    while step < 3
        invariant
            0 <= step <= 3,
            lfs.wf(),
            lfs.min_x == 0 && lfs.min_y == 0,
            lfs.sz_x == sx && lfs.sz_y == sy,
            sector_lux_ok(lfs),
            cbp.wf(),
            1 <= sx <= 1024 && 1 <= sy <= 1024,
            lfs.field@ == shadow_passes_upto(s_collect, sx as int, sy as int, step as nat),
        decreases 3 - step,
    {
        let src_lfs = lfs.duplicate();
        let ghost s_pass = lfs.field@;
        let mut x: usize = 0;
        proof {
            assert(0 * sy == 0) by (nonlinear_arith);
        }
        while x < sx
            invariant
                0 <= x <= sx,
                step < 3,
                lfs.wf(),
                lfs.min_x == 0 && lfs.min_y == 0,
                lfs.sz_x == sx && lfs.sz_y == sy,
                sector_lux_ok(lfs),
                src_lfs.wf(),
                src_lfs.min_x == 0 && src_lfs.min_y == 0,
                src_lfs.sz_x == sx && src_lfs.sz_y == sy,
                src_lfs.field@ == s_pass,
                sector_lux_ok(src_lfs),
                cbp.wf(),
                1 <= sx <= 1024 && 1 <= sy <= 1024,
                s_pass == shadow_passes_upto(s_collect, sx as int, sy as int, step as nat),
                lfs.field@ == shadow_sweep_upto(
                    s_pass,
                    s_pass,
                    sx as int,
                    sy as int,
                    step as int,
                    (x * sy) as nat,
                ),
            decreases sx - x,
        {
            let mut y: usize = 0;
            while y < sy
                invariant
                    0 <= x < sx,
                    0 <= y <= sy,
                    step < 3,
                    lfs.wf(),
                    lfs.min_x == 0 && lfs.min_y == 0,
                    lfs.sz_x == sx && lfs.sz_y == sy,
                    sector_lux_ok(lfs),
                    src_lfs.wf(),
                    src_lfs.min_x == 0 && src_lfs.min_y == 0,
                    src_lfs.sz_x == sx && src_lfs.sz_y == sy,
                    src_lfs.field@ == s_pass,
                    sector_lux_ok(src_lfs),
                    cbp.wf(),
                    1 <= sx <= 1024 && 1 <= sy <= 1024,
                    s_pass == shadow_passes_upto(s_collect, sx as int, sy as int, step as nat),
                    lfs.field@ == shadow_sweep_upto(
                        s_pass,
                        s_pass,
                        sx as int,
                        sy as int,
                        step as int,
                        (x * sy + y) as nat,
                    ),
                decreases sy - y,
            {
                let src = match src_lfs.get(x as i64, y as i64, 0) {
                    Some(v) => v,
                    None => crate::fielddata::LightFieldData::dark(),
                };
                proof {
                    crate::lighting::lemma_lin_tile(
                        (sx as int, sy as int, 1),
                        x as int,
                        y as int,
                        0,
                    );
                    assert((x * sy + y) * 1 + 0 == x * sy + y) by (nonlinear_arith);
                }
                shadow_one_tile(&mut lfs, src, &cbp, &mut nbors_buf, x, y, step, sx, sy);
                y = y + 1;
            }
            proof {
                assert(x * sy + sy == (x + 1) * sy) by (nonlinear_arith);
            }
            x = x + 1;
        }
        proof {
            assert(lfs.field@ == shadow_pass_spec(s_pass, sx as int, sy as int, step as int));
            assert(lfs.field@ == shadow_passes_upto(
                s_collect,
                sx as int,
                sy as int,
                (step + 1) as nat,
            ));
        }
        step = step + 1;
    }
    proof {
        assert(lfs.field@ == shadow_field_spec(snapshot@, sx as int, sy as int));
    }
    // Write the finished plane into the board's dense light field; every
    // vertical layer takes the plane's values.
    let ghost sfin = lfs.field@;
    let mut grid = crate::grids::light_grid_new(
        sx,
        sy,
        sz,
        crate::fielddata::LightFieldData::dark(),
    );
    let mut gx: usize = 0;
    while gx < sx
        invariant
            0 <= gx <= sx,
            crate::grids::light_grid_dims(grid) == dims,
            crate::grids::grid_dom_ok(dims, crate::grids::light_grid_map(grid)),
            lfs.wf(),
            lfs.min_x == 0 && lfs.min_y == 0,
            lfs.sz_x == sx && lfs.sz_y == sy,
            sector_lux_ok(lfs),
            lfs.field@ == sfin,
            forall|p: (int, int, int)|
                crate::lighting::in_bounds_spec(dims, p) ==> 0 <= (
                #[trigger] crate::grids::light_grid_map(grid)[p]).lux <= SHADOW_LUX_CAP,
            forall|p: (int, int, int)|
                crate::lighting::in_bounds_spec(dims, p) && p.0 < gx ==> (
                #[trigger] crate::grids::light_grid_map(grid)[p]) == sfin[scoord(
                    sx as int,
                    sy as int,
                    p.0,
                    p.1,
                )],
        decreases sx - gx,
    {
        let mut gy: usize = 0;
        while gy < sy
            invariant
                0 <= gx < sx,
                0 <= gy <= sy,
                crate::grids::light_grid_dims(grid) == dims,
                crate::grids::grid_dom_ok(dims, crate::grids::light_grid_map(grid)),
                lfs.wf(),
                lfs.min_x == 0 && lfs.min_y == 0,
                lfs.sz_x == sx && lfs.sz_y == sy,
                sector_lux_ok(lfs),
                lfs.field@ == sfin,
                forall|p: (int, int, int)|
                    crate::lighting::in_bounds_spec(dims, p) ==> 0 <= (
                    #[trigger] crate::grids::light_grid_map(grid)[p]).lux <= SHADOW_LUX_CAP,
                forall|p: (int, int, int)|
                    crate::lighting::in_bounds_spec(dims, p) && (p.0 < gx || (p.0 == gx && p.1
                        < gy)) ==> (#[trigger] crate::grids::light_grid_map(grid)[p]) == sfin[
                        scoord(sx as int, sy as int, p.0, p.1)],
            decreases sy - gy,
        {
            let v = match lfs.get(gx as i64, gy as i64, 0) {
                Some(v) => v,
                None => crate::fielddata::LightFieldData::dark(),
            };
            let mut gz: usize = 0;
            while gz < sz
                invariant
                    0 <= gx < sx,
                    0 <= gy < sy,
                    0 <= gz <= sz,
                    crate::grids::light_grid_dims(grid) == dims,
                    crate::grids::grid_dom_ok(dims, crate::grids::light_grid_map(grid)),
                    0 <= v.lux <= SHADOW_LUX_CAP,
                    v == sfin[scoord(sx as int, sy as int, gx as int, gy as int)],
                    lfs.wf(),
                    lfs.min_x == 0 && lfs.min_y == 0,
                    lfs.sz_x == sx && lfs.sz_y == sy,
                    sector_lux_ok(lfs),
                    lfs.field@ == sfin,
                    forall|p: (int, int, int)|
                        crate::lighting::in_bounds_spec(dims, p) ==> 0 <= (
                        #[trigger] crate::grids::light_grid_map(grid)[p]).lux <= SHADOW_LUX_CAP,
                    forall|p: (int, int, int)|
                        crate::lighting::in_bounds_spec(dims, p) && (p.0 < gx || (p.0 == gx && p.1
                            < gy) || (p.0 == gx && p.1 == gy && p.2 < gz)) ==> (
                        #[trigger] crate::grids::light_grid_map(grid)[p]) == sfin[scoord(
                            sx as int,
                            sy as int,
                            p.0,
                            p.1,
                        )],
                decreases sz - gz,
            {
                crate::grids::light_grid_set(&mut grid, gx, gy, gz, v);
                gz = gz + 1;
            }
            gy = gy + 1;
        }
        gx = gx + 1;
    }
    crate::lighting::update_exposure_and_stats(bf, &grid);
}

/// Runs one coalesced board rebuild: drains the pending request, rebuilds
/// the collision field when asked, and rebuilds the light field by shadow
/// casting when asked. Requests raised while another is pending have
/// already been merged by OR.
pub fn boardfield_update(
    bf: &mut crate::boarddata::BoardData,
    snapshot: &Vec<crate::behavior::EntitySnapshot>,
)
    requires
        old(bf).wf(),
        crate::lighting::snapshot_in_bounds(snapshot@, old(bf).dims()),
        crate::lighting::snapshot_lights_ok(snapshot@),
        forall|e: int|
            0 <= e < snapshot@.len() ==> 0 <= (#[trigger] snapshot@[e]).props.light.transmissivity
                <= TRANS_CAP && -1000000000 <= snapshot@[e].props.light.additional.infrared
                <= 1000000000 && -1000000000 <= snapshot@[e].props.light.additional.ultraviolet
                <= 1000000000 && -1000000000 <= snapshot@[e].props.light.additional.red
                <= 1000000000,
    ensures
        final(bf).wf(),
        final(bf).map_size == old(bf).map_size,
        final(bf).pending == (crate::boarddata::BoardDataToRebuild {
            lighting: false,
            collision: false,
        }),
        final(bf).prebaked_lighting == old(bf).prebaked_lighting,
        final(bf).temperature_field == old(bf).temperature_field,
        final(bf).ambient_temp == old(bf).ambient_temp,
        old(bf).pending.collision ==> crate::grids::collision_grid_map(final(bf).collision_field)
            == collision_rebuild_spec(snapshot@, old(bf).dims()),
        !old(bf).pending.collision ==> final(bf).collision_field == old(bf).collision_field,
        !old(bf).pending.lighting ==> final(bf).light_field == old(bf).light_field && final(bf).exposure_lux
            == old(bf).exposure_lux,
        old(bf).pending.lighting ==> final(bf).exposure_lux as int
            == crate::lighting::exposure_spec(
            crate::grids::light_grid_map(final(bf).light_field),
            old(bf).dims(),
        ),
        old(bf).pending.lighting ==> (forall|p: (int, int, int)|
            crate::lighting::in_bounds_spec(old(bf).dims(), p) ==> (
            #[trigger] crate::grids::light_grid_map(final(bf).light_field)[p])
                == shadow_field_spec(snapshot@, old(bf).dims().0, old(bf).dims().1)[scoord(
                old(bf).dims().0,
                old(bf).dims().1,
                p.0,
                p.1,
            )]),
{
    let bdr = bf.drain_pending();
    if bdr.collision {
        rebuild_collision_field(bf, snapshot);
    }
    if bdr.lighting {
        shadow_rebuild(bf, snapshot);
    }
}

} // verus!

verus! {

/// Idempotence of the shadow-casting rebuild: its light field is a
/// function of the entity snapshot and the map extents alone, so two
/// boards of the same size — in particular a board before and after a
/// rebuild — rebuild to the identical field, and a repeated run with the
/// same snapshot reproduces its output exactly.
pub proof fn lemma_shadow_rebuild_idempotent(
    a: crate::boarddata::BoardData,
    b: crate::boarddata::BoardData,
    snap: Seq<crate::behavior::EntitySnapshot>,
)
    requires
        a.map_size == b.map_size,
    ensures
        shadow_field_spec(snap, a.dims().0, a.dims().1) == shadow_field_spec(
            snap,
            b.dims().0,
            b.dims().1,
        ),
{
}

} // verus!
