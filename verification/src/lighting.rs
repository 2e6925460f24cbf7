use vstd::prelude::*;
use vstd::arithmetic::div_mod::{
    lemma_div_is_ordered, lemma_fundamental_div_mod, lemma_fundamental_div_mod_converse,
};
use crate::behavior::EntitySnapshot;
use crate::boardposition::BoardPosition;
use crate::fielddata::{CollisionFieldData, LightFieldData};
use crate::grids::{
    bool_grid_map, collision_grid_map, grid_in_dims, light_grid_map, Grid3,
};

verus! {

/// Intensity floor in milli-lux: a contribution below this dies out.
pub const EPSILON_MILLI: i64 = 1;

/// Per-hop attenuation numerator over `MILLI`: each hop keeps 750/1000.
pub const FALLOFF_NUM: i64 = 750;

/// Cap on a single source or wavefront contribution, in milli-lux.
pub const LUX_LIMIT: i64 = 1000000000;

/// Cap on a tile's accumulated lux before a flood runs, in milli-lux.
pub const INIT_LUX_CAP: i64 = 2000000000;

/// Cap on a tile's accumulated lux after a flood, in milli-lux.
pub const TILE_LUX_CAP: i64 = 3000000000;

/// Cap on a color channel, in milli-units.
pub const COLOR_CAP: i64 = 1000000;

/// Cap on a wavefront's remaining travel budget, in milli-tiles.
pub const REM_CAP: i64 = 1000000000;

/// Default propagation range of a fully dynamic source, in milli-tiles.
pub const DYNAMIC_RANGE_MILLI: i64 = 30000;

/// Remaining range granted to a resumed wave edge, in milli-tiles.
pub const WAVE_EDGE_RANGE_MILLI: i64 = 20000;

/// Whether a coordinate triple lies inside the board.
pub fn is_in_bounds(pos: (i64, i64, i64), map_size: (usize, usize, usize)) -> (r: bool)
    requires
        map_size.0 <= i64::MAX,
        map_size.1 <= i64::MAX,
        map_size.2 <= i64::MAX,
    ensures
        r <==> in_bounds_spec(
            (map_size.0 as int, map_size.1 as int, map_size.2 as int),
            (pos.0 as int, pos.1 as int, pos.2 as int),
        ),
{
    pos.0 >= 0 && pos.1 >= 0 && pos.2 >= 0 && pos.0 < map_size.0 as i64 && pos.1 < map_size.1
        as i64 && pos.2 < map_size.2 as i64
}

/// Whether `p` lies inside a board of dimensions `size`.
pub open spec fn in_bounds_spec(size: (int, int, int), p: (int, int, int)) -> bool {
    0 <= p.0 < size.0 && 0 <= p.1 < size.1 && 0 <= p.2 < size.2
}

/// The four propagation directions, in the order the flood tries them.
pub open spec fn dir_offset(d: int) -> (int, int, int) {
    if d == 0 {
        (0, 1, 0)
    } else if d == 1 {
        (1, 0, 0)
    } else if d == 2 {
        (0, -1, 0)
    } else {
        (-1, 0, 0)
    }
}

/// One hop of attenuation: keep `FALLOFF_NUM` parts in `MILLI`.
pub open spec fn falloff_spec(lux: int) -> int {
    lux * (FALLOFF_NUM as int) / (crate::MILLI as int)
}

/// Intensity-weighted average of two colors; white when no intensity.
pub open spec fn blend_spec(c1: (int, int, int), lux1: int, c2: (int, int, int), lux2: int) -> (
    int,
    int,
    int,
) {
    if lux1 + lux2 <= 0 {
        (crate::MILLI as int, crate::MILLI as int, crate::MILLI as int)
    } else {
        (
            (c1.0 * lux1 + c2.0 * lux2) / (lux1 + lux2),
            (c1.1 * lux1 + c2.1 * lux2) / (lux1 + lux2),
            (c1.2 * lux1 + c2.2 * lux2) / (lux1 + lux2),
        )
    }
}

/// Blend two colors by their intensities: the channel-wise weighted
/// average, or white when the combined intensity is not positive.
pub fn blend_colors(c1: (i64, i64, i64), lux1: i64, c2: (i64, i64, i64), lux2: i64) -> (r: (
    i64,
    i64,
    i64,
))
    requires
        0 <= lux1 <= TILE_LUX_CAP,
        0 <= lux2 <= TILE_LUX_CAP,
        0 <= c1.0 <= COLOR_CAP && 0 <= c1.1 <= COLOR_CAP && 0 <= c1.2 <= COLOR_CAP,
        0 <= c2.0 <= COLOR_CAP && 0 <= c2.1 <= COLOR_CAP && 0 <= c2.2 <= COLOR_CAP,
    ensures
        (r.0 as int, r.1 as int, r.2 as int) == blend_spec(
            (c1.0 as int, c1.1 as int, c1.2 as int),
            lux1 as int,
            (c2.0 as int, c2.1 as int, c2.2 as int),
            lux2 as int,
        ),
        0 <= r.0 <= COLOR_CAP && 0 <= r.1 <= COLOR_CAP && 0 <= r.2 <= COLOR_CAP,
{
    let total_lux: i64 = lux1 + lux2;
    if total_lux <= 0 {
        (crate::MILLI, crate::MILLI, crate::MILLI)
    } else {
        proof {
            lemma_prod_bounds(c1.0 as int, lux1 as int);
            lemma_prod_bounds(c1.1 as int, lux1 as int);
            lemma_prod_bounds(c1.2 as int, lux1 as int);
            lemma_prod_bounds(c2.0 as int, lux2 as int);
            lemma_prod_bounds(c2.1 as int, lux2 as int);
            lemma_prod_bounds(c2.2 as int, lux2 as int);
        }
        let r0: i64 = (c1.0 * lux1 + c2.0 * lux2) / total_lux;
        let r1: i64 = (c1.1 * lux1 + c2.1 * lux2) / total_lux;
        let r2: i64 = (c1.2 * lux1 + c2.2 * lux2) / total_lux;
        proof {
            lemma_weighted_avg_bounds(c1.0 as int, lux1 as int, c2.0 as int, lux2 as int);
            lemma_weighted_avg_bounds(c1.1 as int, lux1 as int, c2.1 as int, lux2 as int);
            lemma_weighted_avg_bounds(c1.2 as int, lux1 as int, c2.2 as int, lux2 as int);
        }
        (r0, r1, r2)
    }
}

/// A channel value weighted by an intensity stays within machine range.
proof fn lemma_prod_bounds(a: int, w: int)
    requires
        0 <= a <= COLOR_CAP,
        0 <= w <= TILE_LUX_CAP,
    ensures
        0 <= a * w <= 3000000000000000,
{
    assert(0 <= a * w <= 3000000000000000) by (nonlinear_arith)
        requires
            0 <= a <= 1000000 && 0 <= w <= 3000000000,
    ;
}

/// A weighted average of two channel values in `[0, COLOR_CAP]` with
/// non-negative weights of positive sum stays in `[0, COLOR_CAP]`.
proof fn lemma_weighted_avg_bounds(a: int, wa: int, b: int, wb: int)
    requires
        0 <= a <= COLOR_CAP,
        0 <= b <= COLOR_CAP,
        0 <= wa,
        0 <= wb,
        wa + wb > 0,
    ensures
        0 <= (a * wa + b * wb) / (wa + wb) <= COLOR_CAP,
{
    let w = wa + wb;
    assert(a * wa >= 0 && b * wb >= 0) by (nonlinear_arith)
        requires
            0 <= a && 0 <= b && 0 <= wa && 0 <= wb,
    ;
    assert(a * wa + b * wb <= COLOR_CAP * w) by (nonlinear_arith)
        requires
            0 <= a <= COLOR_CAP && 0 <= b <= COLOR_CAP && 0 <= wa && 0 <= wb && w == wa + wb,
    ;
    vstd::arithmetic::div_mod::lemma_div_pos_is_pos(a * wa + b * wb, w);
    lemma_div_is_ordered(a * wa + b * wb, COLOR_CAP * w, w);
    vstd::arithmetic::div_mod::lemma_div_multiples_vanish(COLOR_CAP as int, w);
}

/// A wavefront entry: a tile, its remaining travel budget in milli-tiles,
/// the lux it carries, and its color.
#[derive(Clone, Copy, Debug, PartialEq, Eq)]
pub struct QueueItem {
    pub pos: BoardPosition,
    pub rem: i64,
    pub lux: i64,
    pub color: (i64, i64, i64),
}

/// The mathematical image of a queue item.
pub struct SpecItem {
    pub pos: (int, int, int),
    pub rem: int,
    pub lux: int,
    pub color: (int, int, int),
}

/// The mathematical image of a tile's flood-relevant light state.
pub struct SpecTile {
    pub lux: int,
    pub color: (int, int, int),
}

/// Lifts an executable queue item to its mathematical image.
pub open spec fn lift_item(q: QueueItem) -> SpecItem {
    SpecItem {
        pos: (q.pos.x as int, q.pos.y as int, q.pos.z as int),
        rem: q.rem as int,
        lux: q.lux as int,
        color: (q.color.0 as int, q.color.1 as int, q.color.2 as int),
    }
}

/// Lifts a queue of items to mathematical images, in order.
pub open spec fn lift_queue(s: Seq<QueueItem>) -> Seq<SpecItem> {
    s.map_values(|q: QueueItem| lift_item(q))
}

/// Lifts one stored tile to its mathematical image.
pub open spec fn lift_tile(v: LightFieldData) -> SpecTile {
    SpecTile { lux: v.lux as int, color: (v.color.0 as int, v.color.1 as int, v.color.2 as int) }
}

/// The flood-relevant view of a whole light grid.
pub open spec fn tiles_view(m: Map<(int, int, int), LightFieldData>) -> Map<(int, int, int), SpecTile> {
    Map::new(|p: (int, int, int)| m.dom().contains(p), |p: (int, int, int)| lift_tile(m[p]))
}

/// The set of tiles a visited-marks grid holds as true.
pub open spec fn true_set(m: Map<(int, int, int), bool>) -> Set<(int, int, int)> {
    Set::new(|p: (int, int, int)| m.dom().contains(p) && m[p])
}

/// The whole state a flood works on: the light view, the visited marks,
/// the pending wavefront, and how many deposits were made.
pub struct FloodState {
    pub field: Map<(int, int, int), SpecTile>,
    pub visited: Set<(int, int, int)>,
    pub queue: Seq<SpecItem>,
    pub count: int,
}

/// What depositing `new_lux` of `color` does to one tile: lux adds, and
/// the color becomes the intensity-weighted blend.
pub open spec fn deposit_spec(t: SpecTile, new_lux: int, color: (int, int, int)) -> SpecTile {
    let lux2 = t.lux + new_lux;
    SpecTile {
        lux: lux2,
        color: if lux2 > 0 {
            blend_spec(t.color, t.lux, color, new_lux)
        } else {
            color
        },
    }
}

/// One direction of one wavefront step: enter the neighbor if it is in
/// bounds, unvisited and see-through, and the attenuated lux still clears
/// the floor; then deposit, mark visited, and extend the wavefront.
pub open spec fn flood_dir_step(
    col: Map<(int, int, int), CollisionFieldData>,
    size: (int, int, int),
    item: SpecItem,
    d: int,
    st: FloodState,
) -> FloodState {
    let off = dir_offset(d);
    let np = (item.pos.0 + off.0, item.pos.1 + off.1, item.pos.2 + off.2);
    if !in_bounds_spec(size, np) {
        st
    } else if st.visited.contains(np) {
        st
    } else if !col[np].see_through {
        st
    } else {
        let new_lux = falloff_spec(item.lux);
        if new_lux < EPSILON_MILLI {
            st
        } else {
            FloodState {
                field: st.field.insert(np, deposit_spec(st.field[np], new_lux, item.color)),
                visited: st.visited.insert(np),
                queue: st.queue.push(
                    SpecItem {
                        pos: np,
                        rem: item.rem - (crate::MILLI as int),
                        lux: new_lux,
                        color: item.color,
                    },
                ),
                count: st.count + 1,
            }
        }
    }
}

/// All four directions of one wavefront step, tried in order from `d`.
pub open spec fn flood_dirs(
    col: Map<(int, int, int), CollisionFieldData>,
    size: (int, int, int),
    item: SpecItem,
    d: int,
    st: FloodState,
) -> FloodState
    decreases 4 - d,
{
    if d < 0 || d >= 4 {
        st
    } else {
        flood_dirs(col, size, item, d + 1, flood_dir_step(col, size, item, d, st))
    }
}

/// Powers of five; the workload that one wavefront entry can still cause.
pub open spec fn pow5(n: nat) -> nat
    decreases n,
{
    if n == 0 {
        1nat
    } else {
        5 * pow5((n - 1) as nat)
    }
}

/// The number of whole hops a travel budget still allows, as a ceiling.
pub open spec fn hops_left(rem: int) -> nat {
    if rem <= 0 {
        0nat
    } else {
        ((rem + crate::MILLI - 1) / (crate::MILLI as int)) as nat
    }
}

/// The total remaining workload of a wavefront queue.
pub open spec fn qsum(q: Seq<SpecItem>) -> nat
    decreases q.len(),
{
    if q.len() == 0 {
        0nat
    } else {
        pow5(hops_left(q[0].rem)) + qsum(q.drop_first())
    }
}

/// The whole flood: process the wavefront queue front to back until it is
/// empty. Entries whose budget or lux is exhausted are dropped; the rest
/// spread to their four neighbors.
pub open spec fn flood_spec(
    col: Map<(int, int, int), CollisionFieldData>,
    size: (int, int, int),
    st: FloodState,
) -> FloodState
    decreases qsum(st.queue),
    via flood_spec_dec
{
    if st.queue.len() == 0 {
        st
    } else {
        let item = st.queue[0];
        let rest = FloodState {
            field: st.field,
            visited: st.visited,
            queue: st.queue.drop_first(),
            count: st.count,
        };
        if item.rem <= 0 || item.lux < EPSILON_MILLI {
            flood_spec(col, size, rest)
        } else {
            flood_spec(col, size, flood_dirs(col, size, item, 0, rest))
        }
    }
}

#[via_fn]
proof fn flood_spec_dec(
    col: Map<(int, int, int), CollisionFieldData>,
    size: (int, int, int),
    st: FloodState,
) {
    if st.queue.len() != 0 {
        let item = st.queue[0];
        let rest = FloodState {
            field: st.field,
            visited: st.visited,
            queue: st.queue.drop_first(),
            count: st.count,
        };
        assert(qsum(st.queue) == pow5(hops_left(item.rem)) + qsum(rest.queue));
        lemma_pow5_pos(hops_left(item.rem));
        if !(item.rem <= 0 || item.lux < EPSILON_MILLI) {
            lemma_hops_left_pos(item.rem);
            lemma_flood_dirs_qsum(col, size, item, 0, rest);
            lemma_pow5_unfold(hops_left(item.rem));
        }
    }
}

/// `pow5` is always at least one.
pub(crate) proof fn lemma_pow5_pos(n: nat)
    ensures
        pow5(n) >= 1,
    decreases n,
{
    if n > 0 {
        lemma_pow5_pos((n - 1) as nat);
    }
}

/// A positive budget allows at least one hop.
pub(crate) proof fn lemma_hops_left_pos(rem: int)
    requires
        rem > 0,
    ensures
        hops_left(rem) >= 1,
{
    let m = crate::MILLI as int;
    vstd::arithmetic::div_mod::lemma_div_pos_is_pos(rem + m - 1, m);
    if (rem + m - 1) / m == 0 {
        vstd::arithmetic::div_mod::lemma_small_div_converse(rem + m - 1, m);
        assert(rem + m - 1 < m);
        assert(false);
    }
}

/// One hop off the budget takes exactly one off `hops_left`.
pub(crate) proof fn lemma_hops_left_step(rem: int)
    requires
        rem > 0,
    ensures
        hops_left(rem - crate::MILLI) == hops_left(rem) - 1,
{
    let m = crate::MILLI as int;
    lemma_hops_left_pos(rem);
    if rem - m <= 0 {
        assert(rem + m - 1 < 2 * m);
        lemma_fundamental_div_mod(rem + m - 1, m);
        let q = (rem + m - 1) / m;
        let r = (rem + m - 1) % m;
        vstd::arithmetic::div_mod::lemma_mod_bound(rem + m - 1, m);
        assert(rem + m - 1 == m * q + r);
        if q >= 2 {
            assert(m * q >= 2 * m) by (nonlinear_arith)
                requires
                    q >= 2 && m == 1000,
            ;
            assert(false);
        }
        assert(q == 1);
    } else {
        lemma_fundamental_div_mod(rem + m - 1, m);
        let q = (rem + m - 1) / m;
        let r = (rem + m - 1) % m;
        vstd::arithmetic::div_mod::lemma_mod_bound(rem + m - 1, m);
        assert(rem - m + m - 1 == (q - 1) * m + r) by (nonlinear_arith)
            requires
                rem + m - 1 == m * q + r,
        ;
        lemma_fundamental_div_mod_converse(rem - m + m - 1, m, q - 1, r);
        assert(hops_left(rem - m) == q - 1);
    }
}

/// `pow5` unfolds one step: five times the next smaller power.
pub(crate) proof fn lemma_pow5_unfold(n: nat)
    requires
        n >= 1,
    ensures
        pow5(n) == 5 * pow5((n - 1) as nat),
{
}

/// Appending an item adds exactly its workload to `qsum`.
pub(crate) proof fn lemma_qsum_push(q: Seq<SpecItem>, it: SpecItem)
    ensures
        qsum(q.push(it)) == qsum(q) + pow5(hops_left(it.rem)),
    decreases q.len(),
{
    assert(qsum(q.push(it)) == pow5(hops_left(q.push(it)[0].rem)) + qsum(q.push(it).drop_first()));
    if q.len() == 0 {
        assert(q.push(it).drop_first() =~= Seq::<SpecItem>::empty());
        assert(q.push(it)[0] == it);
        assert(qsum(Seq::<SpecItem>::empty()) == 0);
        assert(qsum(q) == 0);
    } else {
        assert(q.push(it).drop_first() =~= q.drop_first().push(it));
        assert(q.push(it)[0] == q[0]);
        lemma_qsum_push(q.drop_first(), it);
        assert(qsum(q) == pow5(hops_left(q[0].rem)) + qsum(q.drop_first()));
    }
}

/// Spreading one wavefront entry grows the queue workload by at most four
/// times the workload of a one-hop-shorter entry.
proof fn lemma_flood_dirs_qsum(
    col: Map<(int, int, int), CollisionFieldData>,
    size: (int, int, int),
    item: SpecItem,
    d: int,
    st: FloodState,
)
    requires
        0 <= d <= 4,
        item.rem > 0,
    ensures
        qsum(flood_dirs(col, size, item, d, st).queue) <= qsum(st.queue) + (4 - d) * pow5(
            (hops_left(item.rem) - 1) as nat,
        ),
    decreases 4 - d,
{
    lemma_hops_left_pos(item.rem);
    let p = pow5((hops_left(item.rem) - 1) as nat);
    if d < 4 {
        let st2 = flood_dir_step(col, size, item, d, st);
        lemma_flood_dirs_qsum(col, size, item, d + 1, st2);
        assert(qsum(flood_dirs(col, size, item, d, st).queue) <= qsum(st2.queue) + (4 - (d + 1))
            * p);
        if st2.queue != st.queue {
            let pushed = SpecItem {
                pos: (
                    item.pos.0 + dir_offset(d).0,
                    item.pos.1 + dir_offset(d).1,
                    item.pos.2 + dir_offset(d).2,
                ),
                rem: item.rem - (crate::MILLI as int),
                lux: falloff_spec(item.lux),
                color: item.color,
            };
            assert(st2.queue == st.queue.push(pushed));
            lemma_qsum_push(st.queue, pushed);
            lemma_hops_left_step(item.rem);
            assert(qsum(st2.queue) == qsum(st.queue) + p);
            assert((4 - (d + 1)) * p + p == (4 - d) * p) by (nonlinear_arith);
        } else {
            assert((4 - (d + 1)) * p <= (4 - d) * p) by (nonlinear_arith)
                requires
                    d < 4 && p >= 0,
            ;
        }
    }
}

} // verus!

verus! {

/// An item is fit for the wavefront: its tile is on the board and its
/// numbers stay within the caps the arithmetic relies on.
pub open spec fn item_ok(size: (int, int, int), it: SpecItem) -> bool {
    &&& in_bounds_spec(size, it.pos)
    &&& 0 <= it.lux <= LUX_LIMIT
    &&& -(crate::MILLI as int) <= it.rem <= REM_CAP
    &&& 0 <= it.color.0 <= COLOR_CAP
    &&& 0 <= it.color.1 <= COLOR_CAP
    &&& 0 <= it.color.2 <= COLOR_CAP
}

/// Every queued item is fit for the wavefront.
pub open spec fn queue_ok(size: (int, int, int), q: Seq<SpecItem>) -> bool {
    forall|i: int| 0 <= i < q.len() ==> item_ok(size, #[trigger] q[i])
}

/// A tile's numbers stay within the caps the arithmetic relies on.
pub open spec fn tile_ok(t: SpecTile) -> bool {
    &&& 0 <= t.lux <= TILE_LUX_CAP
    &&& 0 <= t.color.0 <= COLOR_CAP
    &&& 0 <= t.color.1 <= COLOR_CAP
    &&& 0 <= t.color.2 <= COLOR_CAP
}

/// Every tile is within caps, and a tile not yet visited has room for one
/// more wavefront deposit.
pub open spec fn field_ok(
    size: (int, int, int),
    f: Map<(int, int, int), SpecTile>,
    vis: Set<(int, int, int)>,
) -> bool {
    forall|p: (int, int, int)|
        in_bounds_spec(size, p) ==> tile_ok(#[trigger] f[p]) && (!vis.contains(p) ==> f[p].lux
            <= INIT_LUX_CAP)
}

/// Updating one key commutes with taking the flood view of a light grid.
proof fn lemma_tiles_view_insert(
    m: Map<(int, int, int), LightFieldData>,
    p: (int, int, int),
    v: LightFieldData,
)
    ensures
        tiles_view(m.insert(p, v)) == tiles_view(m).insert(p, lift_tile(v)),
{
    assert(tiles_view(m.insert(p, v)) =~= tiles_view(m).insert(p, lift_tile(v)));
}

/// Marking one tile commutes with taking the visited set of a marks grid.
pub(crate) proof fn lemma_true_set_insert(m: Map<(int, int, int), bool>, p: (int, int, int))
    requires
        m.dom().contains(p),
    ensures
        true_set(m.insert(p, true)) == true_set(m).insert(p),
{
    assert(true_set(m.insert(p, true)) =~= true_set(m).insert(p));
}

/// Lifting a queue commutes with appending.
pub(crate) proof fn lemma_lift_queue_push(s: Seq<QueueItem>, it: QueueItem)
    ensures
        lift_queue(s.push(it)) == lift_queue(s).push(lift_item(it)),
{
    assert(lift_queue(s.push(it)) =~= lift_queue(s).push(lift_item(it)));
}

/// Lifting a queue commutes with dropping the front.
pub(crate) proof fn lemma_lift_queue_drop_first(s: Seq<QueueItem>)
    requires
        s.len() > 0,
    ensures
        lift_queue(s.drop_first()) == lift_queue(s).drop_first(),
{
    assert(lift_queue(s.drop_first()) =~= lift_queue(s).drop_first());
}

/// Skipping one more element is dropping the front of the skipped tail.
proof fn lemma_skip_one(s: Seq<QueueItem>, h: int)
    requires
        0 <= h < s.len(),
    ensures
        s.skip(h + 1) == s.skip(h).drop_first(),
{
    assert(s.skip(h + 1) =~= s.skip(h).drop_first());
}

/// First-in first-out wavefront queue: items are appended at the back and
/// taken from a moving front cursor.
pub struct FloodQueue {
    pub items: Vec<QueueItem>,
    pub head: usize,
}

impl FloodQueue {
    /// The items still waiting, front first.
    pub open spec fn view_spec(self) -> Seq<QueueItem> {
        self.items@.skip(self.head as int)
    }

    /// The front cursor never passes the back.
    pub open spec fn wf(self) -> bool {
        self.head <= self.items@.len()
    }

    /// An empty queue.
    pub fn new() -> (r: FloodQueue)
        ensures
            r.wf(),
            r.view_spec() == Seq::<QueueItem>::empty(),
            r.items@.len() == 0,
    {
        let r = FloodQueue { items: Vec::new(), head: 0 };
        proof {
            assert(r.view_spec() =~= Seq::<QueueItem>::empty());
        }
        r
    }

    /// How many items still wait.
    pub fn remaining(&self) -> (n: usize)
        requires
            self.wf(),
        ensures
            n as int == self.view_spec().len(),
    {
        self.items.len() - self.head
    }

    /// Appends an item at the back.
    pub fn push_back(&mut self, it: QueueItem)
        requires
            old(self).wf(),
        ensures
            final(self).wf(),
            final(self).view_spec() == old(self).view_spec().push(it),
            final(self).items@.len() == old(self).items@.len() + 1,
            final(self).head == old(self).head,
    {
        self.items.push(it);
        proof {
            assert(self.items@.skip(self.head as int) =~= old(self).view_spec().push(it));
        }
    }

    /// Takes the front item.
    pub fn pop_front(&mut self) -> (r: QueueItem)
        requires
            old(self).wf(),
            old(self).view_spec().len() > 0,
        ensures
            final(self).wf(),
            r == old(self).view_spec()[0],
            final(self).view_spec() == old(self).view_spec().drop_first(),
            final(self).items == old(self).items,
    {
        let n: usize = self.items.len();
        let r = self.items[self.head];
        self.head = self.head + 1;
        proof {
            lemma_skip_one(self.items@, old(self).head as int);
        }
        r
    }
}

/// The flood state that a light grid, a marks grid, a queue and a counter
/// presently denote.
pub open spec fn flood_now(
    lfs: Grid3<LightFieldData>,
    vis: Grid3<bool>,
    q: FloodQueue,
    count: int,
) -> FloodState {
    FloodState {
        field: tiles_view(light_grid_map(lfs)),
        visited: true_set(bool_grid_map(vis)),
        queue: lift_queue(q.view_spec()),
        count: count,
    }
}

} // verus!

verus! {

/// Attenuates a contribution by one hop.
pub fn falloff(lux: i64) -> (r: i64)
    requires
        0 <= lux <= LUX_LIMIT,
    ensures
        r == falloff_spec(lux as int),
        0 <= r <= lux,
{
    proof {
        vstd::arithmetic::div_mod::lemma_div_pos_is_pos(lux as int * 750, 1000);
        lemma_div_is_ordered(lux as int * 750, 1000 * (lux as int), 1000);
        vstd::arithmetic::div_mod::lemma_div_multiples_vanish(lux as int, 1000);
    }
    lux * FALLOFF_NUM / crate::MILLI
}

/// Runs the wavefront queue to exhaustion over the board: the incremental
/// breadth-first light propagation shared by the dynamic-source flood and
/// the wave-edge resumption. The result is exactly `flood_spec` of the
/// starting state; tiles keep their transmissivity and extra channels.
#[verifier::loop_isolation(false)]
pub(crate) fn flood_propagate(
    collision: &Grid3<CollisionFieldData>,
    map_size: (usize, usize, usize),
    lfs: &mut Grid3<LightFieldData>,
    visited: &mut Grid3<bool>,
    queue: &mut FloodQueue,
) -> (count: usize)
    requires
        1 <= map_size.0 <= crate::boarddata::MAP_AXIS_LIMIT,
        1 <= map_size.1 <= crate::boarddata::MAP_AXIS_LIMIT,
        1 <= map_size.2 <= crate::boarddata::MAP_AXIS_LIMIT,
        crate::grids::collision_grid_dims(*collision) == (
            map_size.0 as int,
            map_size.1 as int,
            map_size.2 as int,
        ),
        crate::grids::light_grid_dims(*old(lfs)) == crate::grids::collision_grid_dims(*collision),
        crate::grids::bool_grid_dims(*old(visited)) == crate::grids::collision_grid_dims(
            *collision,
        ),
        crate::grids::grid_dom_ok(
            crate::grids::collision_grid_dims(*collision),
            collision_grid_map(*collision),
        ),
        crate::grids::grid_dom_ok(
            crate::grids::collision_grid_dims(*collision),
            light_grid_map(*old(lfs)),
        ),
        crate::grids::grid_dom_ok(
            crate::grids::collision_grid_dims(*collision),
            bool_grid_map(*old(visited)),
        ),
        old(queue).wf(),
        queue_ok(
            (map_size.0 as int, map_size.1 as int, map_size.2 as int),
            lift_queue(old(queue).view_spec()),
        ),
        field_ok(
            (map_size.0 as int, map_size.1 as int, map_size.2 as int),
            tiles_view(light_grid_map(*old(lfs))),
            true_set(bool_grid_map(*old(visited))),
        ),
    ensures
        crate::grids::light_grid_dims(*final(lfs)) == crate::grids::light_grid_dims(*old(lfs)),
        crate::grids::bool_grid_dims(*final(visited)) == crate::grids::bool_grid_dims(
            *old(visited),
        ),
        crate::grids::grid_dom_ok(
            crate::grids::light_grid_dims(*old(lfs)),
            light_grid_map(*final(lfs)),
        ),
        crate::grids::grid_dom_ok(
            crate::grids::light_grid_dims(*old(lfs)),
            bool_grid_map(*final(visited)),
        ),
        final(queue).wf(),
        final(queue).view_spec().len() == 0,
        flood_now(*final(lfs), *final(visited), *final(queue), count as int) == flood_spec(
            collision_grid_map(*collision),
            (map_size.0 as int, map_size.1 as int, map_size.2 as int),
            flood_now(*old(lfs), *old(visited), *old(queue), 0),
        ),
        field_ok(
            (map_size.0 as int, map_size.1 as int, map_size.2 as int),
            tiles_view(light_grid_map(*final(lfs))),
            true_set(bool_grid_map(*final(visited))),
        ),
        forall|p: (int, int, int)|
            in_bounds_spec((map_size.0 as int, map_size.1 as int, map_size.2 as int), p) ==> (
            #[trigger] light_grid_map(*final(lfs))[p]).transmissivity == light_grid_map(
                *old(lfs),
            )[p].transmissivity && light_grid_map(*final(lfs))[p].additional == light_grid_map(
                *old(lfs),
            )[p].additional,
{
    let ghost dims = (map_size.0 as int, map_size.1 as int, map_size.2 as int);
    let ghost colmap = collision_grid_map(*collision);
    let ghost st0 = flood_now(*lfs, *visited, *queue, 0);
    let init_len: usize = queue.items.len();
    while queue.remaining() > 0
        invariant
            queue.wf(),
            crate::grids::light_grid_dims(*lfs) == dims,
            crate::grids::bool_grid_dims(*visited) == dims,
            crate::grids::grid_dom_ok(dims, light_grid_map(*lfs)),
            crate::grids::grid_dom_ok(dims, bool_grid_map(*visited)),
            queue_ok(dims, lift_queue(queue.view_spec())),
            field_ok(dims, tiles_view(light_grid_map(*lfs)), true_set(bool_grid_map(*visited))),
            queue.items@.len() >= init_len,
            flood_spec(
                colmap,
                dims,
                flood_now(*lfs, *visited, *queue, queue.items@.len() - init_len),
            ) == flood_spec(colmap, dims, st0),
            forall|p: (int, int, int)|
                in_bounds_spec(dims, p) ==> (#[trigger] light_grid_map(*lfs)[p]).transmissivity
                    == light_grid_map(*old(lfs))[p].transmissivity && light_grid_map(
                    *lfs,
                )[p].additional == light_grid_map(*old(lfs))[p].additional,
        decreases qsum(lift_queue(queue.view_spec())),
    {
        let ghost pre = flood_now(*lfs, *visited, *queue, queue.items@.len() - init_len);
        let ghost qv0 = queue.view_spec();
        let item = queue.pop_front();
        let ghost itspec = lift_item(item);
        proof {
            lemma_lift_queue_drop_first(qv0);
            assert(lift_queue(qv0)[0] == lift_item(qv0[0]));
            assert(pre.queue[0] == itspec);
            assert(item_ok(dims, itspec));
            assert(qsum(pre.queue) == pow5(hops_left(itspec.rem)) + qsum(pre.queue.drop_first()));
            lemma_pow5_pos(hops_left(itspec.rem));
        }
        if item.rem <= 0 || item.lux < EPSILON_MILLI {
            proof {
                let rest = FloodState {
                    field: pre.field,
                    visited: pre.visited,
                    queue: pre.queue.drop_first(),
                    count: pre.count,
                };
                assert(flood_spec(colmap, dims, pre) == flood_spec(colmap, dims, rest));
                assert(flood_now(*lfs, *visited, *queue, queue.items@.len() - init_len) == rest);
            }
        } else {
            let ghost after_pop = flood_now(*lfs, *visited, *queue, queue.items@.len() - init_len);
            proof {
                assert(after_pop == FloodState {
                    field: pre.field,
                    visited: pre.visited,
                    queue: pre.queue.drop_first(),
                    count: pre.count,
                });
                assert(flood_spec(colmap, dims, pre) == flood_spec(
                    colmap,
                    dims,
                    flood_dirs(colmap, dims, itspec, 0, after_pop),
                ));
            }
            let ghost hm1 = (hops_left(itspec.rem) - 1) as nat;
            let mut d: usize = 0;
            while d < 4
                invariant
                    0 <= d <= 4,
                    queue.wf(),
                    crate::grids::light_grid_dims(*lfs) == dims,
                    crate::grids::bool_grid_dims(*visited) == dims,
                    crate::grids::grid_dom_ok(dims, light_grid_map(*lfs)),
                    crate::grids::grid_dom_ok(dims, bool_grid_map(*visited)),
                    queue_ok(dims, lift_queue(queue.view_spec())),
                    field_ok(
                        dims,
                        tiles_view(light_grid_map(*lfs)),
                        true_set(bool_grid_map(*visited)),
                    ),
                    queue.items@.len() >= init_len,
                    flood_dirs(
                        colmap,
                        dims,
                        itspec,
                        d as int,
                        flood_now(*lfs, *visited, *queue, queue.items@.len() - init_len),
                    ) == flood_dirs(colmap, dims, itspec, 0, after_pop),
                    qsum(lift_queue(queue.view_spec())) <= qsum(after_pop.queue) + d * pow5(hm1),
                    forall|p: (int, int, int)|
                        in_bounds_spec(dims, p) ==> (#[trigger] light_grid_map(
                            *lfs,
                        )[p]).transmissivity == light_grid_map(*old(lfs))[p].transmissivity
                            && light_grid_map(*lfs)[p].additional == light_grid_map(
                            *old(lfs),
                        )[p].additional,
                decreases 4 - d,
            {
                let ghost cur_before = flood_now(
                    *lfs,
                    *visited,
                    *queue,
                    queue.items@.len() - init_len,
                );
                let (dx, dy, dz): (i64, i64, i64) = if d == 0 {
                    (0, 1, 0)
                } else if d == 1 {
                    (1, 0, 0)
                } else if d == 2 {
                    (0, -1, 0)
                } else {
                    (-1, 0, 0)
                };
                proof {
                    assert((dx as int, dy as int, dz as int) == dir_offset(d as int));
                }
                let nx: i64 = item.pos.x + dx;
                let ny: i64 = item.pos.y + dy;
                let nz: i64 = item.pos.z + dz;
                let ghost np = (nx as int, ny as int, nz as int);
                let mut deposited: bool = false;
                if is_in_bounds((nx, ny, nz), map_size) {
                    let ux: usize = nx as usize;
                    let uy: usize = ny as usize;
                    let uz: usize = nz as usize;
                    if !crate::grids::bool_grid_get(visited, ux, uy, uz) {
                        let colv = crate::grids::collision_grid_get(collision, ux, uy, uz);
                        if colv.see_through {
                            let new_lux: i64 = falloff(item.lux);
                            if new_lux >= EPSILON_MILLI {
                                let ghost lmap0 = light_grid_map(*lfs);
                                let ghost bmap0 = bool_grid_map(*visited);
                                let ghost qv1 = queue.view_spec();
                                let lf = crate::grids::light_grid_get(lfs, ux, uy, uz);
                                let new_tile_lux: i64 = lf.lux + new_lux;
                                let new_color: (i64, i64, i64) = if new_tile_lux > 0 {
                                    blend_colors(lf.color, lf.lux, item.color, new_lux)
                                } else {
                                    item.color
                                };
                                let new_tile = LightFieldData {
                                    lux: new_tile_lux,
                                    transmissivity: lf.transmissivity,
                                    color: new_color,
                                    additional: lf.additional,
                                };
                                let pushed = QueueItem {
                                    pos: BoardPosition { x: nx, y: ny, z: nz },
                                    rem: item.rem - crate::MILLI,
                                    lux: new_lux,
                                    color: item.color,
                                };
                                crate::grids::light_grid_set(lfs, ux, uy, uz, new_tile);
                                crate::grids::bool_grid_set(visited, ux, uy, uz, true);
                                queue.push_back(pushed);
                                deposited = true;
                                proof {
                                    lemma_tiles_view_insert(lmap0, np, new_tile);
                                    lemma_true_set_insert(bmap0, np);
                                    lemma_lift_queue_push(qv1, pushed);
                                    lemma_qsum_push(lift_queue(qv1), lift_item(pushed));
                                    lemma_hops_left_step(itspec.rem);
                                    assert(lift_tile(new_tile) == deposit_spec(
                                        lift_tile(lf),
                                        new_lux as int,
                                        itspec.color,
                                    ));
                                    assert(tiles_view(lmap0)[np] == lift_tile(lf));
                                }
                            }
                        }
                    }
                }
                proof {
                    let cur_after = flood_now(
                        *lfs,
                        *visited,
                        *queue,
                        queue.items@.len() - init_len,
                    );
                    assert(cur_after == flood_dir_step(colmap, dims, itspec, d as int, cur_before));
                    if deposited {
                        assert((d + 1) * pow5(hm1) == d * pow5(hm1) + pow5(hm1))
                            by (nonlinear_arith);
                    } else {
                        assert(d * pow5(hm1) <= (d + 1) * pow5(hm1)) by (nonlinear_arith)
                            requires
                                d >= 0,
                        ;
                    }
                    assert(flood_dirs(colmap, dims, itspec, d as int, cur_before) == flood_dirs(
                        colmap,
                        dims,
                        itspec,
                        d as int + 1,
                        flood_dir_step(colmap, dims, itspec, d as int, cur_before),
                    ));
                }
                d = d + 1;
            }
            proof {
                let cur_end = flood_now(*lfs, *visited, *queue, queue.items@.len() - init_len);
                assert(flood_dirs(colmap, dims, itspec, 4, cur_end) == cur_end);
                assert(cur_end == flood_dirs(colmap, dims, itspec, 0, after_pop));
                lemma_flood_dirs_qsum(colmap, dims, itspec, 0, after_pop);
                lemma_pow5_unfold(hops_left(itspec.rem));
                assert(4 * pow5(hm1) < 5 * pow5(hm1)) by (nonlinear_arith)
                    requires
                        pow5(hm1) >= 1,
                ;
            }
        }
    }
    let count: usize = queue.items.len() - init_len;
    proof {
        let cur = flood_now(*lfs, *visited, *queue, count as int);
        assert(flood_spec(colmap, dims, cur) == cur);
    }
    count
}

} // verus!

verus! {

/// The tile that position `t` of a row-major scan of the board denotes:
/// `x` slowest, `z` fastest.
pub open spec fn lin_tile(size: (int, int, int), t: int) -> (int, int, int) {
    (t / (size.1 * size.2), (t / size.2) % size.1, t % size.2)
}

/// The linear scan index of tile `(x, y, z)`.
pub open spec fn lin_index(size: (int, int, int), x: int, y: int, z: int) -> int {
    (x * size.1 + y) * size.2 + z
}

/// A scan index decodes back to the tile it was built from.
pub(crate) proof fn lemma_lin_tile(size: (int, int, int), x: int, y: int, z: int)
    requires
        0 < size.0 && 0 < size.1 && 0 < size.2,
        0 <= x < size.0,
        0 <= y < size.1,
        0 <= z < size.2,
    ensures
        lin_tile(size, lin_index(size, x, y, z)) == (x, y, z),
        0 <= lin_index(size, x, y, z) < size.0 * size.1 * size.2,
{
    let t = lin_index(size, x, y, z);
    assert(t == (x * size.1 + y) * size.2 + z);
    assert(0 <= x * size.1 + y) by (nonlinear_arith)
        requires
            0 <= x && 0 <= y && 0 < size.1,
    ;
    lemma_fundamental_div_mod_converse(t, size.2, x * size.1 + y, z);
    assert(t / size.2 == x * size.1 + y && t % size.2 == z);
    lemma_fundamental_div_mod_converse(x * size.1 + y, size.1, x, y);
    assert((t / size.2) % size.1 == y);
    assert(t == x * (size.1 * size.2) + (y * size.2 + z)) by (nonlinear_arith)
        requires
            t == (x * size.1 + y) * size.2 + z,
    ;
    assert(0 <= y * size.2 + z < size.1 * size.2) by (nonlinear_arith)
        requires
            0 <= y < size.1 && 0 <= z < size.2,
    ;
    assert(size.1 * size.2 > 0) by (nonlinear_arith)
        requires
            0 < size.1 && 0 < size.2,
    ;
    lemma_fundamental_div_mod_converse(t, size.1 * size.2, x, y * size.2 + z);
    assert(t / (size.1 * size.2) == x);
    assert(t < size.0 * (size.1 * size.2)) by (nonlinear_arith)
        requires
            t == x * (size.1 * size.2) + (y * size.2 + z),
            x < size.0,
            0 <= y * size.2 + z < size.1 * size.2,
    ;
    assert(size.0 * (size.1 * size.2) == size.0 * size.1 * size.2) by (nonlinear_arith);
    assert(0 <= t) by (nonlinear_arith)
        requires
            t == x * (size.1 * size.2) + (y * size.2 + z),
            0 <= x,
            0 < size.1 * size.2,
            0 <= y * size.2 + z,
    ;
}

/// Whether a sequence of source ids holds `id`.
pub fn contains_u32(v: &Vec<u32>, id: u32) -> (r: bool)
    ensures
        r == v@.contains(id),
{
    let mut i: usize = 0;
    while i < v.len()
        invariant
            0 <= i <= v@.len(),
            forall|k: int| 0 <= k < i ==> v@[k] != id,
        decreases v@.len() - i,
    {
        if v[i] == id {
            return true;
        }
        i = i + 1;
    }
    false
}

/// Whether the entity standing at `pos` currently emits light; false when
/// no entity stands there.
pub open spec fn is_light_active_spec(snap: Seq<EntitySnapshot>, pos: BoardPosition) -> bool {
    match crate::behavior::behavior_at(snap, pos) {
        Some(b) => b.light.emits_light,
        None => false,
    }
}

/// Determines if a light is currently active at a tile, from the entity
/// behavior snapshot (last entry at the tile wins).
pub fn is_light_active(pos: &BoardPosition, behaviors: &Vec<EntitySnapshot>) -> (r: bool)
    ensures
        r == is_light_active_spec(behaviors@, *pos),
{
    match crate::behavior::behavior_lookup(behaviors, pos) {
        Some(b) => b.light.emits_light,
        None => false,
    }
}

/// A bake tile at `(x, y, z)` carries a source id that is in the active set.
pub open spec fn nearby_hit(
    pbmap: Map<(int, int, int), crate::fielddata::PrebakedLightingData>,
    size: (int, int, int),
    active: Seq<u32>,
    x: int,
    y: int,
    z: int,
) -> bool {
    &&& in_bounds_spec(size, (x, y, z))
    &&& pbmap[(x, y, z)].light_info.source_id.is_some()
    &&& active.contains(pbmap[(x, y, z)].light_info.source_id->0)
}

/// Some tile of the 27-cell neighborhood of `(i, j, k)` carries an active
/// baked source.
pub open spec fn nearby_active_spec(
    pbmap: Map<(int, int, int), crate::fielddata::PrebakedLightingData>,
    size: (int, int, int),
    active: Seq<u32>,
    i: int,
    j: int,
    k: int,
) -> bool {
    exists|dx: int, dy: int, dz: int|
        -1 <= dx <= 1 && -1 <= dy <= 1 && -1 <= dz <= 1 && #[trigger] nearby_hit(
            pbmap,
            size,
            active,
            i + dx,
            j + dy,
            k + dz,
        )
}

/// Offset number `u` of the scan of the 27-cell neighborhood hits.
pub open spec fn nearby_hit_at(
    pbmap: Map<(int, int, int), crate::fielddata::PrebakedLightingData>,
    size: (int, int, int),
    active: Seq<u32>,
    i: int,
    j: int,
    k: int,
    u: int,
) -> bool {
    nearby_hit(pbmap, size, active, i + u / 9 - 1, j + (u / 3) % 3 - 1, k + u % 3 - 1)
}

/// The scan index of the offset `(dx, dy, dz)` decodes back to it.
proof fn lemma_decode27(dx: int, dy: int, dz: int)
    requires
        -1 <= dx <= 1,
        -1 <= dy <= 1,
        -1 <= dz <= 1,
    ensures
        0 <= (dx + 1) * 9 + (dy + 1) * 3 + (dz + 1) < 27,
        ((dx + 1) * 9 + (dy + 1) * 3 + (dz + 1)) / 9 == dx + 1,
        (((dx + 1) * 9 + (dy + 1) * 3 + (dz + 1)) / 3) % 3 == dy + 1,
        ((dx + 1) * 9 + (dy + 1) * 3 + (dz + 1)) % 3 == dz + 1,
{
    let u = (dx + 1) * 9 + (dy + 1) * 3 + (dz + 1);
    lemma_fundamental_div_mod_converse(u, 9, dx + 1, (dy + 1) * 3 + (dz + 1));
    assert(u == ((dx + 1) * 3 + (dy + 1)) * 3 + (dz + 1));
    lemma_fundamental_div_mod_converse(u, 3, (dx + 1) * 3 + (dy + 1), dz + 1);
    lemma_fundamental_div_mod_converse((dx + 1) * 3 + (dy + 1), 3, dx + 1, dy + 1);
}

/// Checks whether any tile of the 27-cell neighborhood of `(i, j, k)`
/// carries a baked source that is currently active.
#[verifier::loop_isolation(false)]
pub fn has_active_light_nearby(
    bf: &crate::boarddata::BoardData,
    active_source_ids: &Vec<u32>,
    i: usize,
    j: usize,
    k: usize,
) -> (r: bool)
    requires
        bf.wf(),
        i < bf.map_size.0,
        j < bf.map_size.1,
        k < bf.map_size.2,
    ensures
        r == nearby_active_spec(
            crate::grids::prebaked_grid_map(bf.prebaked_lighting),
            bf.dims(),
            active_source_ids@,
            i as int,
            j as int,
            k as int,
        ),
{
    let ghost pbmap = crate::grids::prebaked_grid_map(bf.prebaked_lighting);
    let ghost dims = bf.dims();
    let mut u: usize = 0;
    while u < 27
        invariant
            0 <= u <= 27,
            forall|w: int|
                0 <= w < u ==> !nearby_hit_at(
                    pbmap,
                    dims,
                    active_source_ids@,
                    i as int,
                    j as int,
                    k as int,
                    w,
                ),
        decreases 27 - u,
    {
        let dx: i64 = (u / 9) as i64 - 1;
        let dy: i64 = ((u / 3) % 3) as i64 - 1;
        let dz: i64 = (u % 3) as i64 - 1;
        let nx: i64 = i as i64 + dx;
        let ny: i64 = j as i64 + dy;
        let nz: i64 = k as i64 + dz;
        if is_in_bounds((nx, ny, nz), bf.map_size) {
            let pb = crate::grids::prebaked_grid_get(
                &bf.prebaked_lighting,
                nx as usize,
                ny as usize,
                nz as usize,
            );
            match pb.light_info.source_id {
                Some(id) => {
                    if contains_u32(active_source_ids, id) {
                        proof {
                            assert(nearby_hit(
                                pbmap,
                                dims,
                                active_source_ids@,
                                i + dx as int,
                                j + dy as int,
                                k + dz as int,
                            ));
                        }
                        return true;
                    }
                },
                None => {},
            }
        }
        u = u + 1;
    }
    proof {
        assert forall|dx: int, dy: int, dz: int|
            -1 <= dx <= 1 && -1 <= dy <= 1 && -1 <= dz <= 1 implies !(#[trigger] nearby_hit(
            pbmap,
            dims,
            active_source_ids@,
            i + dx,
            j + dy,
            k + dz,
        )) by {
            lemma_decode27(dx, dy, dz);
            let w = (dx + 1) * 9 + (dy + 1) * 3 + (dz + 1);
            assert(!nearby_hit_at(pbmap, dims, active_source_ids@, i as int, j as int, k as int, w));
        }
    }
    false
}

/// Some entry of the door list already carries this tile key.
pub open spec fn doors_has_key(s: Seq<((usize, usize, usize), bool)>, key: (usize, usize, usize)) -> bool {
    exists|i: int| 0 <= i < s.len() && (#[trigger] s[i]).0 == key
}

/// Every tile key occurs at most once in the door list.
pub open spec fn doors_keys_unique(s: Seq<((usize, usize, usize), bool)>) -> bool {
    forall|i: int, j: int| 0 <= i < j < s.len() ==> (#[trigger] s[i]).0 != (#[trigger] s[j]).0
}

/// Records one door's state under its tile key: a tile already present
/// takes the new state in place, a new tile is appended — the last entry
/// at a tile wins, as a keyed insert of each entry in order would make it.
pub open spec fn door_record(
    s: Seq<((usize, usize, usize), bool)>,
    key: (usize, usize, usize),
    open: bool,
) -> Seq<((usize, usize, usize), bool)> {
    if doors_has_key(s, key) {
        Seq::new(s.len(), |i: int| if s[i].0 == key { (key, open) } else { s[i] })
    } else {
        s.push((key, open))
    }
}

/// The door states of a snapshot, keyed by tile: each door entity's tile
/// index and whether it stands open, the last entity at a tile winning.
pub open spec fn door_states_spec(snap: Seq<EntitySnapshot>) -> Seq<((usize, usize, usize), bool)>
    decreases snap.len(),
{
    if snap.len() == 0 {
        Seq::empty()
    } else {
        let prev = door_states_spec(snap.drop_last());
        let e = snap.last();
        if e.props.is_door {
            door_record(prev, (e.pos.x as usize, e.pos.y as usize, e.pos.z as usize), e.props.open)
        } else {
            prev
        }
    }
}

/// Recording a door keeps the keys unique.
proof fn lemma_door_record_unique(
    s: Seq<((usize, usize, usize), bool)>,
    key: (usize, usize, usize),
    open: bool,
)
    requires
        doors_keys_unique(s),
    ensures
        doors_keys_unique(door_record(s, key, open)),
{
    let r = door_record(s, key, open);
    if doors_has_key(s, key) {
        assert forall|i: int, j: int| 0 <= i < j < r.len() implies (#[trigger] r[i]).0 != (
        #[trigger] r[j]).0 by {
            assert(r[i] == if s[i].0 == key { (key, open) } else { s[i] });
            assert(r[j] == if s[j].0 == key { (key, open) } else { s[j] });
        }
    } else {
        assert forall|i: int, j: int| 0 <= i < j < r.len() implies (#[trigger] r[i]).0 != (
        #[trigger] r[j]).0 by {
            if j == s.len() {
                assert(!(s[i].0 == key));
            }
        }
    }
}

/// The door states of any snapshot carry each tile key once.
proof fn lemma_door_states_unique(snap: Seq<EntitySnapshot>)
    ensures
        doors_keys_unique(door_states_spec(snap)),
    decreases snap.len(),
{
    if snap.len() > 0 {
        lemma_door_states_unique(snap.drop_last());
        let e = snap.last();
        if e.props.is_door {
            lemma_door_record_unique(
                door_states_spec(snap.drop_last()),
                (e.pos.x as usize, e.pos.y as usize, e.pos.z as usize),
                e.props.open,
            );
        }
    }
}

/// Collects the open or closed state of every door entity, keyed by its
/// tile index; where several door entities share a tile, the last one of
/// the snapshot wins.
#[verifier::loop_isolation(false)]
pub fn collect_door_states(snapshot: &Vec<EntitySnapshot>) -> (r: Vec<((usize, usize, usize), bool)>)
    requires
        forall|e: int|
            0 <= e < snapshot@.len() ==> 0 <= (#[trigger] snapshot@[e]).pos.x <= usize::MAX && 0
                <= snapshot@[e].pos.y <= usize::MAX && 0 <= snapshot@[e].pos.z <= usize::MAX,
    ensures
        r@ == door_states_spec(snapshot@),
{
    let mut r: Vec<((usize, usize, usize), bool)> = Vec::new();
    let mut e: usize = 0;
    proof {
        assert(snapshot@.take(0) =~= Seq::<EntitySnapshot>::empty());
    }
    while e < snapshot.len()
        invariant
            0 <= e <= snapshot@.len(),
            r@ == door_states_spec(snapshot@.take(e as int)),
            doors_keys_unique(r@),
        decreases snapshot@.len() - e,
    {
        let entry = snapshot[e];
        if entry.props.is_door {
            let key: (usize, usize, usize) = (
                entry.pos.x as usize,
                entry.pos.y as usize,
                entry.pos.z as usize,
            );
            let ghost r0 = r@;
            let mut w: usize = 0;
            let mut found: bool = false;
            while w < r.len()
                invariant
                    0 <= w <= r@.len(),
                    r@ == r0,
                    !found,
                    forall|v: int| 0 <= v < w ==> (#[trigger] r@[v]).0 != key,
                decreases r@.len() - w,
            {
                let cur = r[w];
                if cur.0.0 == key.0 && cur.0.1 == key.1 && cur.0.2 == key.2 {
                    found = true;
                    break ;
                }
                w = w + 1;
            }
            if found {
                r.set(w, (key, entry.props.open));
                proof {
                    assert(r@ =~= door_record(r0, key, entry.props.open)) by {
                        assert(doors_has_key(r0, key));
                        assert forall|v: int| 0 <= v < r@.len() implies r@[v] == door_record(
                            r0,
                            key,
                            entry.props.open,
                        )[v] by {
                            if v != w {
                                assert(r0[v].0 != key);
                            }
                        }
                    }
                }
            } else {
                proof {
                    assert(!doors_has_key(r0, key));
                }
                r.push((key, entry.props.open));
            }
            proof {
                lemma_door_record_unique(r0, key, entry.props.open);
            }
        }
        proof {
            assert(snapshot@.take(e as int + 1).drop_last() =~= snapshot@.take(e as int));
            assert(snapshot@.take(e as int + 1).last() == snapshot@[e as int]);
        }
        e = e + 1;
    }
    proof {
        assert(snapshot@.take(snapshot@.len() as int) =~= snapshot@);
    }
    r
}

} // verus!

verus! {

/// The board position that an in-bounds index triple denotes.
pub open spec fn bake_tile_pos(p: (int, int, int)) -> BoardPosition {
    BoardPosition { x: p.0 as i64, y: p.1 as i64, z: p.2 as i64 }
}

/// A bake tile carries a source id and the entity standing on it emits.
pub open spec fn tile_source_active(
    pbmap: Map<(int, int, int), crate::fielddata::PrebakedLightingData>,
    snap: Seq<EntitySnapshot>,
    p: (int, int, int),
) -> bool {
    pbmap[p].light_info.source_id.is_some() && is_light_active_spec(snap, bake_tile_pos(p))
}

/// The active source ids gathered over the first `t` tiles of the board
/// scan, each id recorded once, in first-encounter order.
pub open spec fn active_ids_upto(
    pbmap: Map<(int, int, int), crate::fielddata::PrebakedLightingData>,
    snap: Seq<EntitySnapshot>,
    size: (int, int, int),
    t: nat,
) -> Seq<u32>
    decreases t,
{
    if t == 0 {
        Seq::empty()
    } else {
        let prev = active_ids_upto(pbmap, snap, size, (t - 1) as nat);
        let p = lin_tile(size, t - 1);
        if tile_source_active(pbmap, snap, p) && !prev.contains(pbmap[p].light_info.source_id->0) {
            prev.push(pbmap[p].light_info.source_id->0)
        } else {
            prev
        }
    }
}

/// The ids of all currently active baked sources.
pub open spec fn active_source_ids_spec(
    pbmap: Map<(int, int, int), crate::fielddata::PrebakedLightingData>,
    snap: Seq<EntitySnapshot>,
    size: (int, int, int),
) -> Seq<u32> {
    active_ids_upto(pbmap, snap, size, (size.0 * size.1 * size.2) as nat)
}

/// An emitting entity whose tile the bake does not attribute to any source
/// is a fully dynamic light.
pub open spec fn dyn_light_cond(
    pbmap: Map<(int, int, int), crate::fielddata::PrebakedLightingData>,
    e: EntitySnapshot,
) -> bool {
    e.props.light.lux > 0 && e.props.light.emits_light && pbmap[(
        e.pos.x as int,
        e.pos.y as int,
        e.pos.z as int,
    )].light_info.source_id.is_none()
}

/// The fully dynamic lights of a snapshot, in order: tile, lux, color and
/// the default propagation range.
pub open spec fn dynamic_lights_spec(
    pbmap: Map<(int, int, int), crate::fielddata::PrebakedLightingData>,
    snap: Seq<EntitySnapshot>,
) -> Seq<(BoardPosition, i64, (i64, i64, i64), i64)>
    decreases snap.len(),
{
    if snap.len() == 0 {
        Seq::empty()
    } else {
        let prev = dynamic_lights_spec(pbmap, snap.drop_last());
        let e = snap.last();
        if dyn_light_cond(pbmap, e) {
            prev.push((e.pos, e.props.light.lux, e.props.light.color, DYNAMIC_RANGE_MILLI))
        } else {
            prev
        }
    }
}

/// Every snapshot entity stands on an in-bounds tile.
pub open spec fn snapshot_in_bounds(snap: Seq<EntitySnapshot>, size: (int, int, int)) -> bool {
    forall|e: int|
        0 <= e < snap.len() ==> in_bounds_spec(
            size,
            (
                (#[trigger] snap[e]).pos.x as int,
                snap[e].pos.y as int,
                snap[e].pos.z as int,
            ),
        )
}

/// Identifies the currently active baked sources and collects the fully
/// dynamic lights: a baked source is active when the entity on its tile
/// emits light; an emitting entity on a tile without a baked source is a
/// dynamic light with the default range.
#[verifier::loop_isolation(false)]
pub fn identify_active_light_sources(
    bf: &crate::boarddata::BoardData,
    snapshot: &Vec<EntitySnapshot>,
) -> (r: (Vec<u32>, Vec<(BoardPosition, i64, (i64, i64, i64), i64)>))
    requires
        bf.wf(),
        snapshot_in_bounds(snapshot@, bf.dims()),
    ensures
        r.0@ == active_source_ids_spec(
            crate::grids::prebaked_grid_map(bf.prebaked_lighting),
            snapshot@,
            bf.dims(),
        ),
        r.1@ == dynamic_lights_spec(
            crate::grids::prebaked_grid_map(bf.prebaked_lighting),
            snapshot@,
        ),
{
    let ghost pbmap = crate::grids::prebaked_grid_map(bf.prebaked_lighting);
    let ghost dims = bf.dims();
    let (sx, sy, sz): (usize, usize, usize) = bf.map_size;
    let mut active: Vec<u32> = Vec::new();
    let mut x: usize = 0;
    proof {
        assert(0 * sy * sz == 0) by (nonlinear_arith);
        assert(active@ == active_ids_upto(pbmap, snapshot@, dims, 0nat));
    }
    while x < sx
        invariant
            0 <= x <= sx,
            active@ == active_ids_upto(pbmap, snapshot@, dims, (x * sy * sz) as nat),
        decreases sx - x,
    {
        let mut y: usize = 0;
        proof {
            assert(x * sy * sz == (x * sy + 0) * sz) by (nonlinear_arith);
        }
        while y < sy
            invariant
                0 <= y <= sy,
                active@ == active_ids_upto(pbmap, snapshot@, dims, ((x * sy + y) * sz) as nat),
            decreases sy - y,
        {
            let mut z: usize = 0;
            while z < sz
                invariant
                    0 <= z <= sz,
                    active@ == active_ids_upto(
                        pbmap,
                        snapshot@,
                        dims,
                        ((x * sy + y) * sz + z) as nat,
                    ),
                decreases sz - z,
            {
                proof {
                    lemma_lin_tile(dims, x as int, y as int, z as int);
                }
                let pb = crate::grids::prebaked_grid_get(&bf.prebaked_lighting, x, y, z);
                match pb.light_info.source_id {
                    Some(id) => {
                        let pos = BoardPosition { x: x as i64, y: y as i64, z: z as i64 };
                        if is_light_active(&pos, snapshot) {
                            if !contains_u32(&active, id) {
                                active.push(id);
                            }
                        }
                    },
                    None => {},
                }
                z = z + 1;
            }
            proof {
                assert((x * sy + y) * sz + sz == (x * sy + y + 1) * sz) by (nonlinear_arith);
            }
            y = y + 1;
        }
        proof {
            assert((x * sy + sy) * sz == ((x + 1) * sy) * sz) by (nonlinear_arith);
            assert(((x + 1) * sy) * sz == (x + 1) * sy * sz) by (nonlinear_arith);
            assert(x * sy * sz == (x * sy) * sz) by (nonlinear_arith);
        }
        x = x + 1;
    }
    proof {
        assert(sx * sy * sz == (sx * sy) * sz) by (nonlinear_arith);
    }
    let mut dynamics: Vec<(BoardPosition, i64, (i64, i64, i64), i64)> = Vec::new();
    let mut e: usize = 0;
    proof {
        assert(snapshot@.take(0) =~= Seq::<EntitySnapshot>::empty());
    }
    while e < snapshot.len()
        invariant
            0 <= e <= snapshot@.len(),
            dynamics@ == dynamic_lights_spec(pbmap, snapshot@.take(e as int)),
        decreases snapshot@.len() - e,
    {
        let entry = snapshot[e];
        let lux = entry.props.light.lux;
        if lux > 0 && entry.props.light.emits_light {
            let idx = entry.pos.ndidx();
            let pb = crate::grids::prebaked_grid_get(&bf.prebaked_lighting, idx.0, idx.1, idx.2);
            if pb.light_info.source_id.is_none() {
                dynamics.push((entry.pos, lux, entry.props.light.color, DYNAMIC_RANGE_MILLI));
            }
        }
        proof {
            assert(snapshot@.take(e as int + 1).drop_last() =~= snapshot@.take(e as int));
            assert(snapshot@.take(e as int + 1).last() == snapshot@[e as int]);
        }
        e = e + 1;
    }
    proof {
        assert(snapshot@.take(snapshot@.len() as int) =~= snapshot@);
    }
    (active, dynamics)
}

/// A bake tile whose source is active and whose baked lux clears the floor
/// is copied into the working field.
pub open spec fn prebake_applies(
    pbmap: Map<(int, int, int), crate::fielddata::PrebakedLightingData>,
    active: Seq<u32>,
    p: (int, int, int),
) -> bool {
    &&& pbmap[p].light_info.source_id.is_some()
    &&& active.contains(pbmap[p].light_info.source_id->0)
    &&& pbmap[p].light_info.lux > EPSILON_MILLI
}

/// The working field after the first `t` tiles of the board scan had their
/// active baked contributions copied in.
pub open spec fn apply_prebaked_upto(
    pbmap: Map<(int, int, int), crate::fielddata::PrebakedLightingData>,
    active: Seq<u32>,
    size: (int, int, int),
    lfs0: Map<(int, int, int), LightFieldData>,
    t: nat,
) -> Map<(int, int, int), LightFieldData>
    decreases t,
{
    if t == 0 {
        lfs0
    } else {
        let prev = apply_prebaked_upto(pbmap, active, size, lfs0, (t - 1) as nat);
        let p = lin_tile(size, t - 1);
        if prebake_applies(pbmap, active, p) {
            prev.insert(
                p,
                LightFieldData {
                    lux: pbmap[p].light_info.lux,
                    transmissivity: prev[p].transmissivity,
                    color: pbmap[p].light_info.color,
                    additional: prev[p].additional,
                },
            )
        } else {
            prev
        }
    }
}

/// How many of the first `t` tiles took a baked contribution.
pub open spec fn applied_count_upto(
    pbmap: Map<(int, int, int), crate::fielddata::PrebakedLightingData>,
    active: Seq<u32>,
    size: (int, int, int),
    t: nat,
) -> nat
    decreases t,
{
    if t == 0 {
        0nat
    } else {
        applied_count_upto(pbmap, active, size, (t - 1) as nat) + if prebake_applies(
            pbmap,
            active,
            lin_tile(size, t - 1),
        ) {
            1nat
        } else {
            0nat
        }
    }
}

} // verus!

verus! {

/// Copies the baked lux and color of every tile whose source is currently
/// active into the working field, leaving all other tiles untouched, and
/// returns how many tiles were lit this way.
#[verifier::loop_isolation(false)]
pub fn apply_prebaked_contributions(
    active_source_ids: &Vec<u32>,
    bf: &crate::boarddata::BoardData,
    lfs: &mut Grid3<LightFieldData>,
) -> (tiles_lit: usize)
    requires
        bf.wf(),
        crate::grids::light_grid_dims(*old(lfs)) == bf.dims(),
        crate::grids::grid_dom_ok(bf.dims(), light_grid_map(*old(lfs))),
    ensures
        crate::grids::light_grid_dims(*final(lfs)) == bf.dims(),
        crate::grids::grid_dom_ok(bf.dims(), light_grid_map(*final(lfs))),
        light_grid_map(*final(lfs)) == apply_prebaked_upto(
            crate::grids::prebaked_grid_map(bf.prebaked_lighting),
            active_source_ids@,
            bf.dims(),
            light_grid_map(*old(lfs)),
            (bf.dims().0 * bf.dims().1 * bf.dims().2) as nat,
        ),
        tiles_lit as int == applied_count_upto(
            crate::grids::prebaked_grid_map(bf.prebaked_lighting),
            active_source_ids@,
            bf.dims(),
            (bf.dims().0 * bf.dims().1 * bf.dims().2) as nat,
        ),
{
    let ghost pbmap = crate::grids::prebaked_grid_map(bf.prebaked_lighting);
    let ghost dims = bf.dims();
    let ghost lfs0 = light_grid_map(*old(lfs));
    let (sx, sy, sz): (usize, usize, usize) = bf.map_size;
    let mut tiles_lit: usize = 0;
    let mut x: usize = 0;
    proof {
        assert(0 * sy * sz == 0) by (nonlinear_arith);
        assert(light_grid_map(*lfs) == apply_prebaked_upto(pbmap, active_source_ids@, dims, lfs0, 0nat));
    }
    while x < sx
        invariant
            0 <= x <= sx,
            crate::grids::light_grid_dims(*lfs) == dims,
            crate::grids::grid_dom_ok(dims, light_grid_map(*lfs)),
            light_grid_map(*lfs) == apply_prebaked_upto(
                pbmap,
                active_source_ids@,
                dims,
                lfs0,
                (x * sy * sz) as nat,
            ),
            tiles_lit as int == applied_count_upto(
                pbmap,
                active_source_ids@,
                dims,
                (x * sy * sz) as nat,
            ),
            tiles_lit as int <= x * sy * sz,
        decreases sx - x,
    {
        let mut y: usize = 0;
        proof {
            assert(x * sy * sz == (x * sy + 0) * sz) by (nonlinear_arith);
        }
        while y < sy
            invariant
                0 <= y <= sy,
                crate::grids::light_grid_dims(*lfs) == dims,
                crate::grids::grid_dom_ok(dims, light_grid_map(*lfs)),
                light_grid_map(*lfs) == apply_prebaked_upto(
                    pbmap,
                    active_source_ids@,
                    dims,
                    lfs0,
                    ((x * sy + y) * sz) as nat,
                ),
                tiles_lit as int == applied_count_upto(
                    pbmap,
                    active_source_ids@,
                    dims,
                    ((x * sy + y) * sz) as nat,
                ),
                tiles_lit as int <= (x * sy + y) * sz,
            decreases sy - y,
        {
            let mut z: usize = 0;
            while z < sz
                invariant
                    0 <= z <= sz,
                    crate::grids::light_grid_dims(*lfs) == dims,
                    crate::grids::grid_dom_ok(dims, light_grid_map(*lfs)),
                    light_grid_map(*lfs) == apply_prebaked_upto(
                        pbmap,
                        active_source_ids@,
                        dims,
                        lfs0,
                        ((x * sy + y) * sz + z) as nat,
                    ),
                    tiles_lit as int == applied_count_upto(
                        pbmap,
                        active_source_ids@,
                        dims,
                        ((x * sy + y) * sz + z) as nat,
                    ),
                    tiles_lit as int <= (x * sy + y) * sz + z,
                decreases sz - z,
            {
                proof {
                    lemma_lin_tile(dims, x as int, y as int, z as int);
                }
                let pb = crate::grids::prebaked_grid_get(&bf.prebaked_lighting, x, y, z);
                match pb.light_info.source_id {
                    Some(id) => {
                        if contains_u32(active_source_ids, id) && pb.light_info.lux > EPSILON_MILLI {
                            let lf = crate::grids::light_grid_get(lfs, x, y, z);
                            crate::grids::light_grid_set(
                                lfs,
                                x,
                                y,
                                z,
                                LightFieldData {
                                    lux: pb.light_info.lux,
                                    transmissivity: lf.transmissivity,
                                    color: pb.light_info.color,
                                    additional: lf.additional,
                                },
                            );
                            proof {
                                assert((x * sy + y) * sz + z < dims.0 * dims.1 * dims.2);
                                assert(dims.0 * dims.1 * dims.2 <= 1073741824) by (nonlinear_arith)
                                    requires
                                        1 <= dims.0 <= 1024 && 1 <= dims.1 <= 1024 && 1 <= dims.2
                                            <= 1024,
                                ;
                            }
                            tiles_lit = tiles_lit + 1;
                        }
                    },
                    None => {},
                }
                z = z + 1;
            }
            proof {
                assert((x * sy + y) * sz + sz == (x * sy + y + 1) * sz) by (nonlinear_arith);
            }
            y = y + 1;
        }
        proof {
            assert((x * sy + sy) * sz == (x + 1) * sy * sz) by (nonlinear_arith);
        }
        x = x + 1;
    }
    proof {
        assert(sx * sy * sz == (sx * sy) * sz) by (nonlinear_arith);
    }
    tiles_lit
}

} // verus!

verus! {

/// An open door stands within the 27-cell neighborhood of `p`.
pub open spec fn door_near(doors: Seq<((usize, usize, usize), bool)>, p: (int, int, int)) -> bool {
    exists|w: int|
        0 <= w < doors.len() && (#[trigger] doors[w]).1 && crate::boardposition::abs_spec(
            doors[w].0.0 as int - p.0,
        ) <= 1 && crate::boardposition::abs_spec(doors[w].0.1 as int - p.1) <= 1
            && crate::boardposition::abs_spec(doors[w].0.2 as int - p.2) <= 1
}

/// A wave-edge tile resumes when its source is active and an open door
/// stands next to it.
pub open spec fn wave_edge_cond(
    pbmap: Map<(int, int, int), crate::fielddata::PrebakedLightingData>,
    active: Seq<u32>,
    doors: Seq<((usize, usize, usize), bool)>,
    p: (int, int, int),
) -> bool {
    &&& pbmap[p].is_wave_edge
    &&& pbmap[p].light_info.source_id.is_some()
    &&& active.contains(pbmap[p].light_info.source_id->0)
    &&& door_near(doors, p)
}

/// The wave-edge resumption entries gathered over the first `t` tiles of
/// the board scan: tile, source id, retained lux and color, and the
/// resumption range.
pub open spec fn wave_edges_upto(
    pbmap: Map<(int, int, int), crate::fielddata::PrebakedLightingData>,
    active: Seq<u32>,
    doors: Seq<((usize, usize, usize), bool)>,
    size: (int, int, int),
    t: nat,
) -> Seq<(BoardPosition, u32, i64, (i64, i64, i64), i64)>
    decreases t,
{
    if t == 0 {
        Seq::empty()
    } else {
        let prev = wave_edges_upto(pbmap, active, doors, size, (t - 1) as nat);
        let p = lin_tile(size, t - 1);
        if wave_edge_cond(pbmap, active, doors, p) {
            prev.push(
                (
                    bake_tile_pos(p),
                    pbmap[p].light_info.source_id->0,
                    pbmap[p].light_info.lux,
                    pbmap[p].light_info.color,
                    WAVE_EDGE_RANGE_MILLI,
                ),
            )
        } else {
            prev
        }
    }
}

/// Whether an open door stands within one tile of `(x, y, z)` on every axis.
#[verifier::loop_isolation(false)]
fn door_near_exec(doors: &Vec<((usize, usize, usize), bool)>, x: usize, y: usize, z: usize) -> (r:
    bool)
    requires
        x <= 1024 && y <= 1024 && z <= 1024,
        forall|w: int|
            0 <= w < doors@.len() ==> (#[trigger] doors@[w]).0.0 <= 1024 && doors@[w].0.1 <= 1024
                && doors@[w].0.2 <= 1024,
    ensures
        r == door_near(doors@, (x as int, y as int, z as int)),
{
    let mut w: usize = 0;
    while w < doors.len()
        invariant
            0 <= w <= doors@.len(),
            forall|v: int|
                0 <= v < w ==> !((#[trigger] doors@[v]).1 && crate::boardposition::abs_spec(
                    doors@[v].0.0 as int - x as int,
                ) <= 1 && crate::boardposition::abs_spec(doors@[v].0.1 as int - y as int) <= 1
                    && crate::boardposition::abs_spec(doors@[v].0.2 as int - z as int) <= 1),
        decreases doors@.len() - w,
    {
        let (dpos, open) = doors[w];
        if open {
            let ax: i64 = crate::boardposition::abs_i64(dpos.0 as i64 - x as i64);
            let ay: i64 = crate::boardposition::abs_i64(dpos.1 as i64 - y as i64);
            let az: i64 = crate::boardposition::abs_i64(dpos.2 as i64 - z as i64);
            if ax <= 1 && ay <= 1 && az <= 1 {
                return true;
            }
        }
        w = w + 1;
    }
    false
}

/// Finds the wave-edge tiles where baked propagation can resume: tiles the
/// bake marked as wave edges, whose source is active, standing next to an
/// open door. Each entry keeps the tile's retained lux and color and is
/// granted the resumption range.
#[verifier::loop_isolation(false)]
pub fn find_wave_edge_tiles(
    bf: &crate::boarddata::BoardData,
    active_source_ids: &Vec<u32>,
    door_states: &Vec<((usize, usize, usize), bool)>,
) -> (r: Vec<(BoardPosition, u32, i64, (i64, i64, i64), i64)>)
    requires
        bf.wf(),
        forall|w: int|
            0 <= w < door_states@.len() ==> (#[trigger] door_states@[w]).0.0 <= 1024
                && door_states@[w].0.1 <= 1024 && door_states@[w].0.2 <= 1024,
    ensures
        r@ == wave_edges_upto(
            crate::grids::prebaked_grid_map(bf.prebaked_lighting),
            active_source_ids@,
            door_states@,
            bf.dims(),
            (bf.dims().0 * bf.dims().1 * bf.dims().2) as nat,
        ),
{
    let ghost pbmap = crate::grids::prebaked_grid_map(bf.prebaked_lighting);
    let ghost dims = bf.dims();
    let (sx, sy, sz): (usize, usize, usize) = bf.map_size;
    let mut r: Vec<(BoardPosition, u32, i64, (i64, i64, i64), i64)> = Vec::new();
    let mut x: usize = 0;
    proof {
        assert(0 * sy * sz == 0) by (nonlinear_arith);
        assert(r@ == wave_edges_upto(pbmap, active_source_ids@, door_states@, dims, 0nat));
    }
    while x < sx
        invariant
            0 <= x <= sx,
            r@ == wave_edges_upto(
                pbmap,
                active_source_ids@,
                door_states@,
                dims,
                (x * sy * sz) as nat,
            ),
        decreases sx - x,
    {
        let mut y: usize = 0;
        proof {
            assert(x * sy * sz == (x * sy + 0) * sz) by (nonlinear_arith);
        }
        while y < sy
            invariant
                0 <= y <= sy,
                r@ == wave_edges_upto(
                    pbmap,
                    active_source_ids@,
                    door_states@,
                    dims,
                    ((x * sy + y) * sz) as nat,
                ),
            decreases sy - y,
        {
            let mut z: usize = 0;
            while z < sz
                invariant
                    0 <= z <= sz,
                    r@ == wave_edges_upto(
                        pbmap,
                        active_source_ids@,
                        door_states@,
                        dims,
                        ((x * sy + y) * sz + z) as nat,
                    ),
                decreases sz - z,
            {
                proof {
                    lemma_lin_tile(dims, x as int, y as int, z as int);
                }
                let pb = crate::grids::prebaked_grid_get(&bf.prebaked_lighting, x, y, z);
                if pb.is_wave_edge {
                    match pb.light_info.source_id {
                        Some(id) => {
                            if contains_u32(active_source_ids, id) && door_near_exec(
                                door_states,
                                x,
                                y,
                                z,
                            ) {
                                r.push(
                                    (
                                        BoardPosition { x: x as i64, y: y as i64, z: z as i64 },
                                        id,
                                        pb.light_info.lux,
                                        pb.light_info.color,
                                        WAVE_EDGE_RANGE_MILLI,
                                    ),
                                );
                            }
                        },
                        None => {},
                    }
                }
                z = z + 1;
            }
            proof {
                assert((x * sy + y) * sz + sz == (x * sy + y + 1) * sz) by (nonlinear_arith);
            }
            y = y + 1;
        }
        proof {
            assert((x * sy + sy) * sz == (x + 1) * sy * sz) by (nonlinear_arith);
        }
        x = x + 1;
    }
    proof {
        assert(sx * sy * sz == (sx * sy) * sz) by (nonlinear_arith);
    }
    r
}

/// Total lux of a list of dynamic lights.
pub open spec fn lux_sum(lights: Seq<(BoardPosition, i64, (i64, i64, i64), i64)>) -> int
    decreases lights.len(),
{
    if lights.len() == 0 {
        0
    } else {
        lux_sum(lights.drop_last()) + lights.last().1
    }
}

/// A dynamic light is fit for seeding: its tile is on the board and its
/// numbers stay within the caps.
pub open spec fn light_ok(size: (int, int, int), l: (BoardPosition, i64, (i64, i64, i64), i64)) -> bool {
    &&& in_bounds_spec(size, (l.0.x as int, l.0.y as int, l.0.z as int))
    &&& 0 <= l.1
    &&& 0 <= l.2.0 <= COLOR_CAP && 0 <= l.2.1 <= COLOR_CAP && 0 <= l.2.2 <= COLOR_CAP
    &&& 0 <= l.3 <= REM_CAP
}

/// Every light of the list is fit for seeding.
pub open spec fn lights_ok(size: (int, int, int), s: Seq<(BoardPosition, i64, (i64, i64, i64), i64)>) -> bool {
    forall|i: int| 0 <= i < s.len() ==> light_ok(size, #[trigger] s[i])
}

/// The flood state after all the given dynamic lights were seeded into the
/// starting state, in order: each light deposits its full lux at its own
/// tile, marks it visited, and joins the wavefront with its range.
pub open spec fn seed_state(
    lights: Seq<(BoardPosition, i64, (i64, i64, i64), i64)>,
    st: FloodState,
) -> FloodState
    decreases lights.len(),
{
    if lights.len() == 0 {
        st
    } else {
        let prev = seed_state(lights.drop_last(), st);
        let l = lights.last();
        let p = (l.0.x as int, l.0.y as int, l.0.z as int);
        FloodState {
            field: prev.field.insert(
                p,
                deposit_spec(prev.field[p], l.1 as int, (l.2.0 as int, l.2.1 as int, l.2.2 as int)),
            ),
            visited: prev.visited.insert(p),
            queue: prev.queue.push(
                SpecItem {
                    pos: p,
                    rem: l.3 as int,
                    lux: l.1 as int,
                    color: (l.2.0 as int, l.2.1 as int, l.2.2 as int),
                },
            ),
            count: prev.count,
        }
    }
}

/// Prefix sums of light lux grow step by step.
proof fn lemma_lux_sum_take_step(s: Seq<(BoardPosition, i64, (i64, i64, i64), i64)>, k: int)
    requires
        0 <= k < s.len(),
    ensures
        lux_sum(s.take(k + 1)) == lux_sum(s.take(k)) + s[k].1,
{
    assert(s.take(k + 1).drop_last() =~= s.take(k));
    assert(s.take(k + 1).last() == s[k]);
}

/// With non-negative lights, a prefix sum never exceeds the total.
proof fn lemma_lux_sum_take_le(s: Seq<(BoardPosition, i64, (i64, i64, i64), i64)>, k: int)
    requires
        0 <= k <= s.len(),
        forall|i: int| 0 <= i < s.len() ==> (#[trigger] s[i]).1 >= 0,
    ensures
        0 <= lux_sum(s.take(k)) <= lux_sum(s),
    decreases s.len() - k,
{
    assert(forall|i: int| 0 <= i < s.take(k).len() ==> (#[trigger] s.take(k)[i]).1 >= 0);
    lemma_lux_sum_nonneg(s.take(k));
    if k == s.len() {
        assert(s.take(k) =~= s);
    } else {
        lemma_lux_sum_take_step(s, k);
        lemma_lux_sum_take_le(s, k + 1);
    }
}

/// A sum of non-negative lights is non-negative.
proof fn lemma_lux_sum_nonneg(s: Seq<(BoardPosition, i64, (i64, i64, i64), i64)>)
    requires
        forall|i: int| 0 <= i < s.len() ==> (#[trigger] s[i]).1 >= 0,
    ensures
        lux_sum(s) >= 0,
    decreases s.len(),
{
    if s.len() > 0 {
        assert(forall|i: int|
            0 <= i < s.drop_last().len() ==> (#[trigger] s.drop_last()[i]).1 >= 0);
        lemma_lux_sum_nonneg(s.drop_last());
    }
}

} // verus!

verus! {

/// Floods light from the fully dynamic sources: each source deposits its
/// lux at its own tile and then spreads through see-through neighbors with
/// the standard falloff, never entering a tile twice. Returns the visited
/// marks so that the wave-edge resumption can avoid double counting.
#[verifier::loop_isolation(false)]
pub fn add_dynamic_light_sources(
    bf: &crate::boarddata::BoardData,
    lfs: &mut Grid3<LightFieldData>,
    dynamic_lights: Vec<(BoardPosition, i64, (i64, i64, i64), i64)>,
) -> (visited: Grid3<bool>)
    requires
        bf.wf(),
        crate::grids::light_grid_dims(*old(lfs)) == bf.dims(),
        crate::grids::grid_dom_ok(bf.dims(), light_grid_map(*old(lfs))),
        lights_ok(bf.dims(), dynamic_lights@),
        lux_sum(dynamic_lights@) <= LUX_LIMIT,
        forall|p: (int, int, int)|
            in_bounds_spec(bf.dims(), p) ==> tile_ok(#[trigger] tiles_view(light_grid_map(*old(lfs)))[p])
                && tiles_view(light_grid_map(*old(lfs)))[p].lux <= LUX_LIMIT,
    ensures
        crate::grids::light_grid_dims(*final(lfs)) == bf.dims(),
        crate::grids::grid_dom_ok(bf.dims(), light_grid_map(*final(lfs))),
        crate::grids::bool_grid_dims(visited) == bf.dims(),
        crate::grids::grid_dom_ok(bf.dims(), bool_grid_map(visited)),
        ({
            let seeded = seed_state(
                dynamic_lights@,
                FloodState {
                    field: tiles_view(light_grid_map(*old(lfs))),
                    visited: Set::empty(),
                    queue: Seq::empty(),
                    count: 0,
                },
            );
            let end = flood_spec(collision_grid_map(bf.collision_field), bf.dims(), seeded);
            tiles_view(light_grid_map(*final(lfs))) == end.field && true_set(bool_grid_map(visited))
                == end.visited
        }),
        field_ok(
            bf.dims(),
            tiles_view(light_grid_map(*final(lfs))),
            true_set(bool_grid_map(visited)),
        ),
        forall|p: (int, int, int)|
            in_bounds_spec(bf.dims(), p) ==> (#[trigger] light_grid_map(*final(lfs))[p]).transmissivity
                == light_grid_map(*old(lfs))[p].transmissivity && light_grid_map(
                *final(lfs),
            )[p].additional == light_grid_map(*old(lfs))[p].additional,
{
    let ghost dims = bf.dims();
    let ghost colmap = collision_grid_map(bf.collision_field);
    let ghost init = FloodState {
        field: tiles_view(light_grid_map(*lfs)),
        visited: Set::empty(),
        queue: Seq::empty(),
        count: 0,
    };
    let (sx, sy, sz): (usize, usize, usize) = bf.map_size;
    let mut visited: Grid3<bool> = crate::grids::bool_grid_new(sx, sy, sz, false);
    let mut queue = FloodQueue::new();
    proof {
        assert(true_set(crate::grids::bool_grid_map(visited)) =~= Set::<(int, int, int)>::empty());
        assert(lift_queue(queue.view_spec()) =~= Seq::<SpecItem>::empty());
        assert(dynamic_lights@.take(0) =~= Seq::<(BoardPosition, i64, (i64, i64, i64), i64)>::empty());
        assert(flood_now(*lfs, visited, queue, 0) == seed_state(dynamic_lights@.take(0), init));
    }
    let mut k: usize = 0;
    while k < dynamic_lights.len()
        invariant
            0 <= k <= dynamic_lights@.len(),
            queue.wf(),
            crate::grids::light_grid_dims(*lfs) == dims,
            crate::grids::grid_dom_ok(dims, light_grid_map(*lfs)),
            crate::grids::bool_grid_dims(visited) == dims,
            crate::grids::grid_dom_ok(dims, crate::grids::bool_grid_map(visited)),
            flood_now(*lfs, visited, queue, 0) == seed_state(dynamic_lights@.take(k as int), init),
            queue_ok(dims, lift_queue(queue.view_spec())),
            forall|p: (int, int, int)|
                in_bounds_spec(dims, p) ==> 0 <= (#[trigger] tiles_view(light_grid_map(*lfs))[p]).lux
                    <= LUX_LIMIT + lux_sum(dynamic_lights@.take(k as int)) && 0 <= tiles_view(
                    light_grid_map(*lfs),
                )[p].color.0 <= COLOR_CAP && 0 <= tiles_view(light_grid_map(*lfs))[p].color.1
                    <= COLOR_CAP && 0 <= tiles_view(light_grid_map(*lfs))[p].color.2 <= COLOR_CAP,
            forall|p: (int, int, int)|
                in_bounds_spec(dims, p) ==> (#[trigger] light_grid_map(*lfs)[p]).transmissivity
                    == light_grid_map(*old(lfs))[p].transmissivity && light_grid_map(
                    *lfs,
                )[p].additional == light_grid_map(*old(lfs))[p].additional,
        decreases dynamic_lights@.len() - k,
    {
        let l = dynamic_lights[k];
        proof {
            assert(light_ok(dims, dynamic_lights@[k as int]));
            lemma_lux_sum_take_step(dynamic_lights@, k as int);
            lemma_lux_sum_take_le(dynamic_lights@, k as int + 1);
            lemma_lux_sum_take_le(dynamic_lights@, k as int);
        }
        let idx = l.0.ndidx();
        let ghost np = (l.0.x as int, l.0.y as int, l.0.z as int);
        let ghost lmap0 = light_grid_map(*lfs);
        let ghost bmap0 = crate::grids::bool_grid_map(visited);
        let ghost qv0 = queue.view_spec();
        let lf = crate::grids::light_grid_get(lfs, idx.0, idx.1, idx.2);
        proof {
            assert(tiles_view(lmap0)[np] == lift_tile(lf));
            assert(0 <= lf.lux as int <= LUX_LIMIT + lux_sum(dynamic_lights@.take(k as int)));
            assert(l.1 as int == lux_sum(dynamic_lights@.take(k as int + 1)) - lux_sum(
                dynamic_lights@.take(k as int),
            ));
            assert(lf.lux + l.1 <= LUX_LIMIT + lux_sum(dynamic_lights@.take(k as int + 1)));
        }
        let new_tile_lux: i64 = lf.lux + l.1;
        let new_color: (i64, i64, i64) = if new_tile_lux > 0 {
            blend_colors(lf.color, lf.lux, l.2, l.1)
        } else {
            l.2
        };
        let new_tile = LightFieldData {
            lux: new_tile_lux,
            transmissivity: lf.transmissivity,
            color: new_color,
            additional: lf.additional,
        };
        crate::grids::light_grid_set(lfs, idx.0, idx.1, idx.2, new_tile);
        crate::grids::bool_grid_set(&mut visited, idx.0, idx.1, idx.2, true);
        queue.push_back(QueueItem { pos: l.0, rem: l.3, lux: l.1, color: l.2 });
        proof {
            lemma_tiles_view_insert(lmap0, np, new_tile);
            lemma_true_set_insert(bmap0, np);
            lemma_lift_queue_push(qv0, QueueItem { pos: l.0, rem: l.3, lux: l.1, color: l.2 });
            assert(lift_tile(new_tile) == deposit_spec(
                lift_tile(lf),
                l.1 as int,
                (l.2.0 as int, l.2.1 as int, l.2.2 as int),
            ));
            assert(tiles_view(lmap0)[np] == lift_tile(lf));
            assert(dynamic_lights@.take(k as int + 1).drop_last() =~= dynamic_lights@.take(
                k as int,
            ));
            assert(dynamic_lights@.take(k as int + 1).last() == dynamic_lights@[k as int]);
            assert(flood_now(*lfs, visited, queue, 0) == seed_state(
                dynamic_lights@.take(k as int + 1),
                init,
            ));
        }
        k = k + 1;
    }
    proof {
        assert(dynamic_lights@.take(dynamic_lights@.len() as int) =~= dynamic_lights@);
        assert(field_ok(
            dims,
            tiles_view(light_grid_map(*lfs)),
            true_set(crate::grids::bool_grid_map(visited)),
        ));
    }
    flood_propagate(&bf.collision_field, bf.map_size, lfs, &mut visited, &mut queue);
    visited
}

} // verus!

verus! {

/// The wavefront queue that a list of wave-edge entries seeds: each entry
/// enters with its retained lux and color and its resumption range.
pub open spec fn wave_queue_spec(
    wave_edges: Seq<(BoardPosition, u32, i64, (i64, i64, i64), i64)>,
) -> Seq<SpecItem> {
    wave_edges.map_values(
        |w: (BoardPosition, u32, i64, (i64, i64, i64), i64)|
            SpecItem {
                pos: (w.0.x as int, w.0.y as int, w.0.z as int),
                rem: w.4 as int,
                lux: w.2 as int,
                color: (w.3.0 as int, w.3.1 as int, w.3.2 as int),
            },
    )
}

/// A wave-edge entry is fit for resumption: its tile is on the board and
/// its numbers stay within the caps.
pub open spec fn wave_edges_ok(
    size: (int, int, int),
    s: Seq<(BoardPosition, u32, i64, (i64, i64, i64), i64)>,
) -> bool {
    forall|i: int|
        0 <= i < s.len() ==> in_bounds_spec(
            size,
            ((#[trigger] s[i]).0.x as int, s[i].0.y as int, s[i].0.z as int),
        ) && 0 <= s[i].2 <= LUX_LIMIT && 0 <= s[i].4 <= REM_CAP && 0 <= s[i].3.0 <= COLOR_CAP && 0
            <= s[i].3.1 <= COLOR_CAP && 0 <= s[i].3.2 <= COLOR_CAP
}

/// Resumes baked propagation from the given wave-edge tiles, spreading
/// into territory the dynamic flood has not visited; returns how many
/// neighbor deposits were made.
#[verifier::loop_isolation(false)]
pub fn propagate_from_wave_edges(
    bf: &crate::boarddata::BoardData,
    lfs: &mut Grid3<LightFieldData>,
    visited: &mut Grid3<bool>,
    wave_edges: &Vec<(BoardPosition, u32, i64, (i64, i64, i64), i64)>,
) -> (count: usize)
    requires
        bf.wf(),
        crate::grids::light_grid_dims(*old(lfs)) == bf.dims(),
        crate::grids::grid_dom_ok(bf.dims(), light_grid_map(*old(lfs))),
        crate::grids::bool_grid_dims(*old(visited)) == bf.dims(),
        crate::grids::grid_dom_ok(bf.dims(), bool_grid_map(*old(visited))),
        wave_edges_ok(bf.dims(), wave_edges@),
        field_ok(
            bf.dims(),
            tiles_view(light_grid_map(*old(lfs))),
            true_set(bool_grid_map(*old(visited))),
        ),
    ensures
        crate::grids::light_grid_dims(*final(lfs)) == bf.dims(),
        crate::grids::grid_dom_ok(bf.dims(), light_grid_map(*final(lfs))),
        crate::grids::bool_grid_dims(*final(visited)) == bf.dims(),
        crate::grids::grid_dom_ok(bf.dims(), bool_grid_map(*final(visited))),
        ({
            let end = flood_spec(
                collision_grid_map(bf.collision_field),
                bf.dims(),
                FloodState {
                    field: tiles_view(light_grid_map(*old(lfs))),
                    visited: true_set(bool_grid_map(*old(visited))),
                    queue: wave_queue_spec(wave_edges@),
                    count: 0,
                },
            );
            tiles_view(light_grid_map(*final(lfs))) == end.field && true_set(
                bool_grid_map(*final(visited)),
            ) == end.visited && count as int == end.count
        }),
        field_ok(
            bf.dims(),
            tiles_view(light_grid_map(*final(lfs))),
            true_set(bool_grid_map(*final(visited))),
        ),
        forall|p: (int, int, int)|
            in_bounds_spec(bf.dims(), p) ==> (#[trigger] light_grid_map(*final(lfs))[p]).transmissivity
                == light_grid_map(*old(lfs))[p].transmissivity && light_grid_map(
                *final(lfs),
            )[p].additional == light_grid_map(*old(lfs))[p].additional,
{
    let ghost dims = bf.dims();
    let mut queue = FloodQueue::new();
    proof {
        assert(lift_queue(queue.view_spec()) =~= wave_queue_spec(wave_edges@.take(0)));
    }
    let mut k: usize = 0;
    while k < wave_edges.len()
        invariant
            0 <= k <= wave_edges@.len(),
            queue.wf(),
            lift_queue(queue.view_spec()) == wave_queue_spec(wave_edges@.take(k as int)),
            queue_ok(dims, lift_queue(queue.view_spec())),
        decreases wave_edges@.len() - k,
    {
        let w = wave_edges[k];
        let ghost qv0 = queue.view_spec();
        queue.push_back(QueueItem { pos: w.0, rem: w.4, lux: w.2, color: w.3 });
        proof {
            lemma_lift_queue_push(qv0, QueueItem { pos: w.0, rem: w.4, lux: w.2, color: w.3 });
            assert(wave_queue_spec(wave_edges@.take(k as int + 1)) =~= wave_queue_spec(
                wave_edges@.take(k as int),
            ).push(
                SpecItem {
                    pos: (w.0.x as int, w.0.y as int, w.0.z as int),
                    rem: w.4 as int,
                    lux: w.2 as int,
                    color: (w.3.0 as int, w.3.1 as int, w.3.2 as int),
                },
            ));
        }
        k = k + 1;
    }
    proof {
        assert(wave_edges@.take(wave_edges@.len() as int) =~= wave_edges@);
    }
    flood_propagate(&bf.collision_field, bf.map_size, lfs, visited, &mut queue)
}

/// The total lux of the first `t` tiles of the board scan.
pub open spec fn lux_total_upto(
    m: Map<(int, int, int), LightFieldData>,
    size: (int, int, int),
    t: nat,
) -> int
    decreases t,
{
    if t == 0 {
        0
    } else {
        lux_total_upto(m, size, (t - 1) as nat) + m[lin_tile(size, t - 1)].lux
    }
}

/// The total lux of the whole board.
pub open spec fn lux_total(m: Map<(int, int, int), LightFieldData>, size: (int, int, int)) -> int {
    lux_total_upto(m, size, (size.0 * size.1 * size.2) as nat)
}

/// The exposure scalar a light field yields: half the average lux plus one
/// unit of headroom, in milli-units.
pub open spec fn exposure_spec(m: Map<(int, int, int), LightFieldData>, size: (int, int, int)) -> int {
    (lux_total(m, size) / (size.0 * size.1 * size.2) + 2 * (crate::MILLI as int)) / 2
}

/// A partial scan total of a bounded field stays within `t` times the cap.
proof fn lemma_lux_total_bound(
    m: Map<(int, int, int), LightFieldData>,
    size: (int, int, int),
    t: nat,
)
    requires
        0 < size.0 && 0 < size.1 && 0 < size.2,
        forall|p: (int, int, int)|
            in_bounds_spec(size, p) ==> 0 <= (#[trigger] m[p]).lux <= TILE_LUX_CAP,
        t <= size.0 * size.1 * size.2,
    ensures
        0 <= lux_total_upto(m, size, t) <= t * (TILE_LUX_CAP as int),
    decreases t,
{
    if t == 0 {
    } else {
        lemma_lux_total_bound(m, size, (t - 1) as nat);
        let p = lin_tile(size, t - 1);
        lemma_lin_range(size, t - 1);
        assert(in_bounds_spec(size, p));
        assert((t - 1) * (TILE_LUX_CAP as int) + TILE_LUX_CAP == t * (TILE_LUX_CAP as int))
            by (nonlinear_arith);
    }
}

/// A scan position below the volume decodes to an in-bounds tile.
pub(crate) proof fn lemma_lin_range(size: (int, int, int), t: int)
    requires
        0 < size.0 && 0 < size.1 && 0 < size.2,
        0 <= t < size.0 * size.1 * size.2,
    ensures
        in_bounds_spec(size, lin_tile(size, t)),
{
    let sy = size.1;
    let sz = size.2;
    vstd::arithmetic::div_mod::lemma_mod_bound(t, sz);
    vstd::arithmetic::div_mod::lemma_div_pos_is_pos(t, sz);
    vstd::arithmetic::div_mod::lemma_mod_bound(t / sz, sy);
    assert(sy * sz > 0) by (nonlinear_arith)
        requires
            sy > 0 && sz > 0,
    ;
    vstd::arithmetic::div_mod::lemma_div_pos_is_pos(t, sy * sz);
    if t / (sy * sz) >= size.0 {
        vstd::arithmetic::div_mod::lemma_fundamental_div_mod(t, sy * sz);
        vstd::arithmetic::div_mod::lemma_mod_bound(t, sy * sz);
        assert((sy * sz) * (t / (sy * sz)) >= (sy * sz) * size.0) by (nonlinear_arith)
            requires
                t / (sy * sz) >= size.0 && sy * sz > 0,
        ;
        assert((size.1 * size.2) * size.0 == size.0 * size.1 * size.2) by (nonlinear_arith);
        assert(false);
    }
}

/// Computes the global exposure from the working field's average lux and
/// stores the field into the board: the rebuilt light field replaces the
/// old one wholesale.
#[verifier::loop_isolation(false)]
pub fn update_exposure_and_stats(
    bf: &mut crate::boarddata::BoardData,
    lfs: &Grid3<LightFieldData>,
)
    requires
        old(bf).wf(),
        crate::grids::light_grid_dims(*lfs) == old(bf).dims(),
        crate::grids::grid_dom_ok(old(bf).dims(), light_grid_map(*lfs)),
        forall|p: (int, int, int)|
            in_bounds_spec(old(bf).dims(), p) ==> 0 <= (#[trigger] light_grid_map(*lfs)[p]).lux
                <= TILE_LUX_CAP,
    ensures
        final(bf).wf(),
        final(bf).map_size == old(bf).map_size,
        final(bf).collision_field == old(bf).collision_field,
        final(bf).temperature_field == old(bf).temperature_field,
        final(bf).prebaked_lighting == old(bf).prebaked_lighting,
        final(bf).ambient_temp == old(bf).ambient_temp,
        final(bf).pending == old(bf).pending,
        light_grid_map(final(bf).light_field) == light_grid_map(*lfs),
        crate::grids::light_grid_dims(final(bf).light_field) == old(bf).dims(),
        final(bf).exposure_lux as int == exposure_spec(light_grid_map(*lfs), old(bf).dims()),
{
    let ghost dims = bf.dims();
    let ghost m = light_grid_map(*lfs);
    let (sx, sy, sz): (usize, usize, usize) = bf.map_size;
    proof {
        assert(sx * sy <= 1048576) by (nonlinear_arith)
            requires
                sx <= 1024 && sy <= 1024,
        ;
        assert(sx * sy * sz <= 1073741824) by (nonlinear_arith)
            requires
                sx * sy <= 1048576 && sz <= 1024,
        ;
    }
    let volume: usize = sx * sy * sz;
    let mut total_lux: i64 = 0;
    let mut x: usize = 0;
    proof {
        assert(0 * sy * sz == 0) by (nonlinear_arith);
        lemma_lux_total_bound(m, dims, 0nat);
    }
    while x < sx
        invariant
            0 <= x <= sx,
            total_lux as int == lux_total_upto(m, dims, (x * sy * sz) as nat),
            x * sy * sz <= dims.0 * dims.1 * dims.2,
            0 <= total_lux,
        decreases sx - x,
    {
        let mut y: usize = 0;
        proof {
            assert(x * sy * sz == (x * sy + 0) * sz) by (nonlinear_arith);
        }
        while y < sy
            invariant
                0 <= y <= sy,
                total_lux as int == lux_total_upto(m, dims, ((x * sy + y) * sz) as nat),
                (x * sy + y) * sz <= dims.0 * dims.1 * dims.2,
                0 <= total_lux,
            decreases sy - y,
        {
            let mut z: usize = 0;
            while z < sz
                invariant
                    0 <= z <= sz,
                    total_lux as int == lux_total_upto(m, dims, ((x * sy + y) * sz + z) as nat),
                    (x * sy + y) * sz + z <= dims.0 * dims.1 * dims.2,
                    0 <= total_lux,
                decreases sz - z,
            {
                proof {
                    lemma_lin_tile(dims, x as int, y as int, z as int);
                    lemma_lux_total_bound(m, dims, ((x * sy + y) * sz + z) as nat);
                    assert(((x * sy + y) * sz + z) * (TILE_LUX_CAP as int) <= 1073741824
                        * (TILE_LUX_CAP as int)) by (nonlinear_arith)
                        requires
                            0 <= (x * sy + y) * sz + z <= 1073741824,
                    ;
                }
                let lf = crate::grids::light_grid_get(lfs, x, y, z);
                total_lux = total_lux + lf.lux;
                z = z + 1;
            }
            proof {
                assert((x * sy + y) * sz + sz == (x * sy + y + 1) * sz) by (nonlinear_arith);
            }
            y = y + 1;
        }
        proof {
            assert((x * sy + sy) * sz == (x + 1) * sy * sz) by (nonlinear_arith);
        }
        x = x + 1;
    }
    proof {
        assert(sx * sy * sz == (sx * sy) * sz) by (nonlinear_arith);
    }
    proof {
        assert(1 <= sx * sy * sz) by (nonlinear_arith)
            requires
                1 <= sx && 1 <= sy && 1 <= sz,
        ;
    }
    let avg_lux: i64 = total_lux / (volume as i64);
    proof {
        vstd::arithmetic::div_mod::lemma_div_pos_is_pos(total_lux as int, volume as int);
        lemma_fundamental_div_mod(total_lux as int, volume as int);
        vstd::arithmetic::div_mod::lemma_mod_bound(total_lux as int, volume as int);
        assert(avg_lux as int <= (avg_lux as int) * (volume as int)) by (nonlinear_arith)
            requires
                avg_lux >= 0 && volume >= 1,
        ;
        assert((avg_lux as int) * (volume as int) == (volume as int) * (avg_lux as int))
            by (nonlinear_arith);
        lemma_lux_total_bound(m, dims, (dims.0 * dims.1 * dims.2) as nat);
        assert((dims.0 * dims.1 * dims.2) * (TILE_LUX_CAP as int) <= 1073741824 * (
        TILE_LUX_CAP as int)) by (nonlinear_arith)
            requires
                0 <= dims.0 * dims.1 * dims.2 <= 1073741824,
        ;
    }
    bf.exposure_lux = (avg_lux + 2 * crate::MILLI) / 2;
    bf.light_field = crate::grids::light_grid_clone(lfs);
}

} // verus!

verus! {

/// Every bake tile holds a modest lux and in-range colors.
pub open spec fn bake_ok(
    pbmap: Map<(int, int, int), crate::fielddata::PrebakedLightingData>,
    size: (int, int, int),
) -> bool {
    forall|p: (int, int, int)|
        in_bounds_spec(size, p) ==> 0 <= (#[trigger] pbmap[p]).light_info.lux <= LUX_LIMIT && 0
            <= pbmap[p].light_info.color.0 <= COLOR_CAP && 0 <= pbmap[p].light_info.color.1
            <= COLOR_CAP && 0 <= pbmap[p].light_info.color.2 <= COLOR_CAP
}

/// Every snapshot entity's emissivity and color are within the caps.
pub open spec fn snapshot_lights_ok(snap: Seq<EntitySnapshot>) -> bool {
    forall|e: int|
        0 <= e < snap.len() ==> 0 <= (#[trigger] snap[e]).props.light.lux <= LUX_LIMIT && 0
            <= snap[e].props.light.color.0 <= COLOR_CAP && 0 <= snap[e].props.light.color.1
            <= COLOR_CAP && 0 <= snap[e].props.light.color.2 <= COLOR_CAP
}

/// The whole lighting rebuild as one mathematical state: identify the
/// active sources, copy the active bake onto a dark field, seed and flood
/// the dynamic lights, then resume the wavefront from the reachable wave
/// edges. Only the bake, the collision field, the map size and the entity
/// snapshot enter; the previous light field does not.
pub open spec fn lighting_rebuild_state_spec(
    pbmap: Map<(int, int, int), crate::fielddata::PrebakedLightingData>,
    colmap: Map<(int, int, int), CollisionFieldData>,
    size: (int, int, int),
    snap: Seq<EntitySnapshot>,
) -> FloodState {
    let vol = (size.0 * size.1 * size.2) as nat;
    let active = active_source_ids_spec(pbmap, snap, size);
    let applied = apply_prebaked_upto(
        pbmap,
        active,
        size,
        crate::grids::grid_fill_map(size, LightFieldData::dark_spec()),
        vol,
    );
    let seeded = seed_state(
        dynamic_lights_spec(pbmap, snap),
        FloodState {
            field: tiles_view(applied),
            visited: Set::empty(),
            queue: Seq::empty(),
            count: 0,
        },
    );
    let flooded = flood_spec(colmap, size, seeded);
    let waves = wave_edges_upto(pbmap, active, door_states_spec(snap), size, vol);
    flood_spec(
        colmap,
        size,
        FloodState {
            field: flooded.field,
            visited: flooded.visited,
            queue: wave_queue_spec(waves),
            count: 0,
        },
    )
}

/// The dynamic lights drawn from an in-bounds, in-range snapshot are fit
/// for seeding.
proof fn lemma_dynamic_lights_ok(
    pbmap: Map<(int, int, int), crate::fielddata::PrebakedLightingData>,
    snap: Seq<EntitySnapshot>,
    size: (int, int, int),
)
    requires
        snapshot_in_bounds(snap, size),
        snapshot_lights_ok(snap),
    ensures
        lights_ok(size, dynamic_lights_spec(pbmap, snap)),
    decreases snap.len(),
{
    if snap.len() > 0 {
        assert(snapshot_in_bounds(snap.drop_last(), size));
        assert(snapshot_lights_ok(snap.drop_last()));
        lemma_dynamic_lights_ok(pbmap, snap.drop_last(), size);
        let s = dynamic_lights_spec(pbmap, snap);
        let prev = dynamic_lights_spec(pbmap, snap.drop_last());
        if dyn_light_cond(pbmap, snap.last()) {
            assert(light_ok(size, s.last()));
            assert(forall|i: int| 0 <= i < prev.len() ==> s[i] == prev[i]);
        }
    }
}

/// The wave-edge entries drawn from an in-range bake are fit for resumption.
proof fn lemma_wave_edges_ok(
    pbmap: Map<(int, int, int), crate::fielddata::PrebakedLightingData>,
    active: Seq<u32>,
    doors: Seq<((usize, usize, usize), bool)>,
    size: (int, int, int),
    t: nat,
)
    requires
        0 < size.0 <= 1024 && 0 < size.1 <= 1024 && 0 < size.2 <= 1024,
        bake_ok(pbmap, size),
        t <= size.0 * size.1 * size.2,
    ensures
        wave_edges_ok(size, wave_edges_upto(pbmap, active, doors, size, t)),
    decreases t,
{
    if t > 0 {
        lemma_wave_edges_ok(pbmap, active, doors, size, (t - 1) as nat);
        let s = wave_edges_upto(pbmap, active, doors, size, t);
        let prev = wave_edges_upto(pbmap, active, doors, size, (t - 1) as nat);
        if wave_edge_cond(pbmap, active, doors, lin_tile(size, t - 1)) {
            let p = lin_tile(size, t - 1);
            lemma_lin_range(size, t - 1);
            assert forall|i: int| 0 <= i < s.len() implies in_bounds_spec(
                size,
                ((#[trigger] s[i]).0.x as int, s[i].0.y as int, s[i].0.z as int),
            ) && 0 <= s[i].2 <= LUX_LIMIT && 0 <= s[i].4 <= REM_CAP && 0 <= s[i].3.0 <= COLOR_CAP
                && 0 <= s[i].3.1 <= COLOR_CAP && 0 <= s[i].3.2 <= COLOR_CAP by {
                if i < prev.len() {
                    assert(s[i] == prev[i]);
                } else {
                    assert(s[i] == s.last());
                    assert(0 <= pbmap[p].light_info.lux <= LUX_LIMIT);
                }
            }
        }
    }
}

/// The door entries drawn from an in-bounds snapshot carry small indices.
proof fn lemma_door_states_bounds(snap: Seq<EntitySnapshot>, size: (int, int, int))
    requires
        snapshot_in_bounds(snap, size),
        size.0 <= 1024 && size.1 <= 1024 && size.2 <= 1024,
    ensures
        forall|w: int|
            0 <= w < door_states_spec(snap).len() ==> (#[trigger] door_states_spec(snap)[w]).0.0
                <= 1024 && door_states_spec(snap)[w].0.1 <= 1024 && door_states_spec(snap)[w].0.2
                <= 1024,
    decreases snap.len(),
{
    if snap.len() > 0 {
        assert(snapshot_in_bounds(snap.drop_last(), size));
        lemma_door_states_bounds(snap.drop_last(), size);
        let s = door_states_spec(snap);
        let prev = door_states_spec(snap.drop_last());
        if snap.last().props.is_door {
            let e = snap.last();
            assert(in_bounds_spec(size, (e.pos.x as int, e.pos.y as int, e.pos.z as int)));
            let key = (e.pos.x as usize, e.pos.y as usize, e.pos.z as usize);
            assert forall|w: int|
                0 <= w < s.len() implies (#[trigger] s[w]).0.0 <= 1024 && s[w].0.1 <= 1024
                && s[w].0.2 <= 1024 by {
                if doors_has_key(prev, key) {
                    assert(s[w] == if prev[w].0 == key {
                        (key, e.props.open)
                    } else {
                        prev[w]
                    });
                } else {
                    if w < prev.len() {
                        assert(s[w] == prev[w]);
                    } else {
                        assert(s[w] == (key, e.props.open));
                    }
                }
            }
        }
    }
}

/// Copying active bake entries keeps every tile's lux and colors within
/// the bake's own caps, and leaves transmissivity and the extra channels
/// untouched.
proof fn lemma_apply_prebaked_bounds(
    pbmap: Map<(int, int, int), crate::fielddata::PrebakedLightingData>,
    active: Seq<u32>,
    size: (int, int, int),
    lfs0: Map<(int, int, int), LightFieldData>,
    t: nat,
)
    requires
        0 < size.0 && 0 < size.1 && 0 < size.2,
        bake_ok(pbmap, size),
        t <= size.0 * size.1 * size.2,
        forall|p: (int, int, int)|
            in_bounds_spec(size, p) ==> 0 <= (#[trigger] lfs0[p]).lux <= LUX_LIMIT && 0
                <= lfs0[p].color.0 <= COLOR_CAP && 0 <= lfs0[p].color.1 <= COLOR_CAP && 0
                <= lfs0[p].color.2 <= COLOR_CAP,
    ensures
        forall|p: (int, int, int)|
            in_bounds_spec(size, p) ==> 0 <= (#[trigger] apply_prebaked_upto(
                pbmap,
                active,
                size,
                lfs0,
                t,
            )[p]).lux <= LUX_LIMIT && 0 <= apply_prebaked_upto(pbmap, active, size, lfs0, t)[p].color.0
                <= COLOR_CAP && 0 <= apply_prebaked_upto(pbmap, active, size, lfs0, t)[p].color.1
                <= COLOR_CAP && 0 <= apply_prebaked_upto(pbmap, active, size, lfs0, t)[p].color.2
                <= COLOR_CAP,
        forall|p: (int, int, int)|
            (#[trigger] apply_prebaked_upto(pbmap, active, size, lfs0, t)[p]).transmissivity
                == lfs0[p].transmissivity && apply_prebaked_upto(
                pbmap,
                active,
                size,
                lfs0,
                t,
            )[p].additional == lfs0[p].additional,
    decreases t,
{
    if t > 0 {
        lemma_apply_prebaked_bounds(pbmap, active, size, lfs0, (t - 1) as nat);
        lemma_lin_range(size, t - 1);
        let p = lin_tile(size, t - 1);
        let prev = apply_prebaked_upto(pbmap, active, size, lfs0, (t - 1) as nat);
        let cur = apply_prebaked_upto(pbmap, active, size, lfs0, t);
        if prebake_applies(pbmap, active, p) {
            assert(0 <= pbmap[p].light_info.lux <= LUX_LIMIT);
            assert(forall|q: (int, int, int)| q != p ==> (#[trigger] cur[q]) == prev[q]);
            assert(cur[p].transmissivity == prev[p].transmissivity);
            assert(cur[p].additional == prev[p].additional);
        } else {
            assert(cur == prev);
        }
    }
}

/// Runs the full lighting rebuild: identify the active baked sources,
/// apply their baked contributions onto a fresh dark field, flood the
/// dynamic lights, resume propagation from wave edges next to open doors,
/// and derive the exposure; the finished field replaces the board's light
/// field wholesale. The result is a function of the bake, the collision
/// field and the snapshot alone — the previous light field never enters.
pub fn rebuild_lighting_field(bf: &mut crate::boarddata::BoardData, snapshot: &Vec<EntitySnapshot>)
    requires
        old(bf).wf(),
        snapshot_in_bounds(snapshot@, old(bf).dims()),
        snapshot_lights_ok(snapshot@),
        bake_ok(crate::grids::prebaked_grid_map(old(bf).prebaked_lighting), old(bf).dims()),
        lux_sum(
            dynamic_lights_spec(
                crate::grids::prebaked_grid_map(old(bf).prebaked_lighting),
                snapshot@,
            ),
        ) <= LUX_LIMIT,
    ensures
        final(bf).wf(),
        final(bf).map_size == old(bf).map_size,
        final(bf).collision_field == old(bf).collision_field,
        final(bf).temperature_field == old(bf).temperature_field,
        final(bf).prebaked_lighting == old(bf).prebaked_lighting,
        final(bf).ambient_temp == old(bf).ambient_temp,
        final(bf).pending == old(bf).pending,
        tiles_view(light_grid_map(final(bf).light_field)) == lighting_rebuild_state_spec(
            crate::grids::prebaked_grid_map(old(bf).prebaked_lighting),
            collision_grid_map(old(bf).collision_field),
            old(bf).dims(),
            snapshot@,
        ).field,
        forall|p: (int, int, int)|
            in_bounds_spec(old(bf).dims(), p) ==> (#[trigger] light_grid_map(
                final(bf).light_field,
            )[p]).transmissivity == crate::MILLI && light_grid_map(final(bf).light_field)[p].additional
                == (crate::fielddata::LightData { infrared: 0, ultraviolet: 0, red: 0 }),
        final(bf).exposure_lux as int == exposure_spec(
            light_grid_map(final(bf).light_field),
            old(bf).dims(),
        ),
{
    let ghost pbmap = crate::grids::prebaked_grid_map(bf.prebaked_lighting);
    let ghost colmap = collision_grid_map(bf.collision_field);
    let ghost dims = bf.dims();
    let ghost vol = (dims.0 * dims.1 * dims.2) as nat;
    let (active, dynamics) = identify_active_light_sources(bf, snapshot);
    let (sx, sy, sz): (usize, usize, usize) = bf.map_size;
    let mut lfs: Grid3<LightFieldData> = crate::grids::light_grid_new(
        sx,
        sy,
        sz,
        LightFieldData::dark(),
    );
    apply_prebaked_contributions(&active, bf, &mut lfs);
    proof {
        assert(forall|p: (int, int, int)|
            in_bounds_spec(dims, p) ==> 0 <= (#[trigger] crate::grids::grid_fill_map(
                dims,
                LightFieldData::dark_spec(),
            )[p]).lux <= LUX_LIMIT && 0 <= crate::grids::grid_fill_map(
                dims,
                LightFieldData::dark_spec(),
            )[p].color.0 <= COLOR_CAP && 0 <= crate::grids::grid_fill_map(
                dims,
                LightFieldData::dark_spec(),
            )[p].color.1 <= COLOR_CAP && 0 <= crate::grids::grid_fill_map(
                dims,
                LightFieldData::dark_spec(),
            )[p].color.2 <= COLOR_CAP);
        lemma_apply_prebaked_bounds(
            pbmap,
            active@,
            dims,
            crate::grids::grid_fill_map(dims, LightFieldData::dark_spec()),
            vol,
        );
        lemma_dynamic_lights_ok(pbmap, snapshot@, dims);
    }
    let doors = collect_door_states(snapshot);
    proof {
        lemma_door_states_bounds(snapshot@, dims);
    }
    let wave_edges = find_wave_edge_tiles(bf, &active, &doors);
    proof {
        lemma_wave_edges_ok(pbmap, active@, doors@, dims, vol);
    }
    let mut visited = add_dynamic_light_sources(bf, &mut lfs, dynamics);
    propagate_from_wave_edges(bf, &mut lfs, &mut visited, &wave_edges);
    proof {
        assert forall|p: (int, int, int)| in_bounds_spec(dims, p) implies 0 <= (
        #[trigger] light_grid_map(lfs)[p]).lux <= TILE_LUX_CAP by {
            assert(tile_ok(tiles_view(light_grid_map(lfs))[p]));
            assert(tiles_view(light_grid_map(lfs))[p] == lift_tile(light_grid_map(lfs)[p]));
        }
    }
    update_exposure_and_stats(bf, &lfs);
}

} // verus!

verus! {

/// Four-neighborhood on tile index triples: one step along `x` or `y`.
pub open spec fn adjacent4(a: (int, int, int), b: (int, int, int)) -> bool {
    a.2 == b.2 && ((a.0 == b.0 && (a.1 == b.1 + 1 || a.1 == b.1 - 1)) || (a.1 == b.1 && (a.0 == b.0
        + 1 || a.0 == b.0 - 1)))
}

/// Every in-bounds four-neighbor of `p` blocks light.
pub open spec fn enclosed(
    col: Map<(int, int, int), CollisionFieldData>,
    size: (int, int, int),
    p: (int, int, int),
) -> bool {
    forall|q: (int, int, int)|
        #[trigger] adjacent4(q, p) && in_bounds_spec(size, q) ==> !col[q].see_through
}

/// No wavefront entry stands on `p` or on one of its four neighbors.
pub open spec fn queue_avoids(q: Seq<SpecItem>, p: (int, int, int)) -> bool {
    forall|i: int| 0 <= i < q.len() ==> (#[trigger] q[i]).pos != p && !adjacent4(q[i].pos, p)
}

/// Spreading one wavefront entry whose tile is neither `p` nor next to it
/// cannot touch `p`, and every entry it adds also avoids `p`.
proof fn lemma_flood_dirs_occluded(
    col: Map<(int, int, int), CollisionFieldData>,
    size: (int, int, int),
    item: SpecItem,
    d: int,
    st: FloodState,
    p: (int, int, int),
)
    requires
        0 <= d <= 4,
        enclosed(col, size, p),
        item.pos != p,
        !adjacent4(item.pos, p),
        queue_avoids(st.queue, p),
    ensures
        flood_dirs(col, size, item, d, st).field[p] == st.field[p],
        queue_avoids(flood_dirs(col, size, item, d, st).queue, p),
    decreases 4 - d,
{
    if d < 4 {
        let st2 = flood_dir_step(col, size, item, d, st);
        let off = dir_offset(d);
        let np = (item.pos.0 + off.0, item.pos.1 + off.1, item.pos.2 + off.2);
        assert(adjacent4(np, item.pos));
        if st2 != st {
            if np == p {
                assert(adjacent4(item.pos, p));
                assert(false);
            }
            if adjacent4(np, p) {
                assert(!col[np].see_through);
                assert(false);
            }
            assert(st2.field[p] == st.field[p]);
            assert forall|i: int| 0 <= i < st2.queue.len() implies (#[trigger] st2.queue[i]).pos
                != p && !adjacent4(st2.queue[i].pos, p) by {
                if i < st.queue.len() {
                    assert(st2.queue[i] == st.queue[i]);
                } else {
                    assert(st2.queue[i].pos == np);
                }
            }
        }
        lemma_flood_dirs_occluded(col, size, item, d + 1, st2, p);
    }
}

/// Occlusion correctness: a tile whose four neighbors all block light, and
/// which no wavefront entry stands on or next to, keeps exactly the light
/// it already had through an entire flood — no external source can reach
/// it along see-through four-neighbor paths.
pub proof fn lemma_flood_occluded(
    col: Map<(int, int, int), CollisionFieldData>,
    size: (int, int, int),
    st: FloodState,
    p: (int, int, int),
)
    requires
        enclosed(col, size, p),
        queue_avoids(st.queue, p),
    ensures
        flood_spec(col, size, st).field[p] == st.field[p],
    decreases qsum(st.queue),
{
    if st.queue.len() != 0 {
        let item = st.queue[0];
        let rest = FloodState {
            field: st.field,
            visited: st.visited,
            queue: st.queue.drop_first(),
            count: st.count,
        };
        assert(item.pos != p && !adjacent4(item.pos, p));
        assert forall|i: int| 0 <= i < rest.queue.len() implies (#[trigger] rest.queue[i]).pos != p
            && !adjacent4(rest.queue[i].pos, p) by {
            assert(rest.queue[i] == st.queue[i + 1]);
        }
        assert(qsum(st.queue) == pow5(hops_left(item.rem)) + qsum(rest.queue));
        lemma_pow5_pos(hops_left(item.rem));
        if item.rem <= 0 || item.lux < EPSILON_MILLI {
            lemma_flood_occluded(col, size, rest, p);
        } else {
            lemma_flood_dirs_occluded(col, size, item, 0, rest, p);
            lemma_flood_dirs_qsum(col, size, item, 0, rest);
            lemma_pow5_unfold(hops_left(item.rem));
            lemma_hops_left_pos(item.rem);
            assert(4 * pow5((hops_left(item.rem) - 1) as nat) < 5 * pow5(
                (hops_left(item.rem) - 1) as nat,
            )) by (nonlinear_arith)
                requires
                    pow5((hops_left(item.rem) - 1) as nat) >= 1,
            ;
            lemma_flood_occluded(col, size, flood_dirs(col, size, item, 0, rest), p);
        }
    }
}

/// Spreading one wavefront entry never lowers any tile's lux.
proof fn lemma_flood_dirs_monotone(
    col: Map<(int, int, int), CollisionFieldData>,
    size: (int, int, int),
    item: SpecItem,
    d: int,
    st: FloodState,
    p: (int, int, int),
)
    requires
        0 <= d <= 4,
    ensures
        flood_dirs(col, size, item, d, st).field[p].lux >= st.field[p].lux,
    decreases 4 - d,
{
    if d < 4 {
        let st2 = flood_dir_step(col, size, item, d, st);
        assert(st2.field[p].lux >= st.field[p].lux);
        lemma_flood_dirs_monotone(col, size, item, d + 1, st2, p);
    }
}

/// Monotonicity of the flood: propagation only ever adds light. Whatever
/// lux a tile holds when the flood starts, it holds at least that much
/// when the flood is done — so opening a gate, which only adds wavefront
/// entries, can only brighten tiles.
pub proof fn lemma_flood_monotone(
    col: Map<(int, int, int), CollisionFieldData>,
    size: (int, int, int),
    st: FloodState,
    p: (int, int, int),
)
    ensures
        flood_spec(col, size, st).field[p].lux >= st.field[p].lux,
    decreases qsum(st.queue),
{
    if st.queue.len() != 0 {
        let item = st.queue[0];
        let rest = FloodState {
            field: st.field,
            visited: st.visited,
            queue: st.queue.drop_first(),
            count: st.count,
        };
        assert(qsum(st.queue) == pow5(hops_left(item.rem)) + qsum(rest.queue));
        lemma_pow5_pos(hops_left(item.rem));
        if item.rem <= 0 || item.lux < EPSILON_MILLI {
            lemma_flood_monotone(col, size, rest, p);
        } else {
            lemma_flood_dirs_monotone(col, size, item, 0, rest, p);
            lemma_flood_dirs_qsum(col, size, item, 0, rest);
            lemma_pow5_unfold(hops_left(item.rem));
            lemma_hops_left_pos(item.rem);
            assert(4 * pow5((hops_left(item.rem) - 1) as nat) < 5 * pow5(
                (hops_left(item.rem) - 1) as nat,
            )) by (nonlinear_arith)
                requires
                    pow5((hops_left(item.rem) - 1) as nat) >= 1,
            ;
            lemma_flood_monotone(col, size, flood_dirs(col, size, item, 0, rest), p);
        }
    }
}

/// Monotonic attenuation of one hop: the attenuated contribution never
/// exceeds the incoming one, and strictly shrinks whenever the incoming
/// contribution still clears the propagation floor.
pub proof fn lemma_falloff_attenuates(lux: int)
    requires
        0 <= lux,
    ensures
        0 <= falloff_spec(lux) <= lux,
        lux >= EPSILON_MILLI ==> falloff_spec(lux) < lux,
{
    vstd::arithmetic::div_mod::lemma_div_pos_is_pos(lux * 750, 1000);
    lemma_div_is_ordered(lux * 750, 1000 * lux, 1000);
    vstd::arithmetic::div_mod::lemma_div_multiples_vanish(lux, 1000);
    if lux >= 1 {
        let q = falloff_spec(lux);
        lemma_fundamental_div_mod(lux * 750, 1000);
        vstd::arithmetic::div_mod::lemma_mod_bound(lux * 750, 1000);
        if q >= lux {
            assert(1000 * q >= 1000 * lux) by (nonlinear_arith)
                requires
                    q >= lux,
            ;
            assert(lux * 750 >= 1000 * lux);
            assert(false) by (nonlinear_arith)
                requires
                    lux * 750 >= 1000 * lux && lux >= 1,
            ;
        }
    }
}

/// Attenuation preserves order: a weaker contribution stays weaker.
pub proof fn lemma_falloff_monotone(a: int, b: int)
    requires
        0 <= a <= b,
    ensures
        falloff_spec(a) <= falloff_spec(b),
{
    lemma_div_is_ordered(a * 750, b * 750, 1000);
}

/// Spreading one wavefront entry only appends, and every appended entry
/// carries exactly the one-hop attenuation of the entry it came from, with
/// one hop less travel budget.
pub proof fn lemma_flood_hop_attenuation(
    col: Map<(int, int, int), CollisionFieldData>,
    size: (int, int, int),
    item: SpecItem,
    d: int,
    st: FloodState,
)
    requires
        0 <= d <= 4,
    ensures
        flood_dirs(col, size, item, d, st).queue.len() >= st.queue.len(),
        forall|i: int|
            0 <= i < st.queue.len() ==> (#[trigger] flood_dirs(col, size, item, d, st).queue[i])
                == st.queue[i],
        forall|i: int|
            st.queue.len() <= i < flood_dirs(col, size, item, d, st).queue.len() ==> (
            #[trigger] flood_dirs(col, size, item, d, st).queue[i]).lux == falloff_spec(item.lux)
                && flood_dirs(col, size, item, d, st).queue[i].rem == item.rem - crate::MILLI,
    decreases 4 - d,
{
    if d < 4 {
        let st2 = flood_dir_step(col, size, item, d, st);
        lemma_flood_hop_attenuation(col, size, item, d + 1, st2);
    }
}

/// Additivity of source seeding: seeding the concatenation of two source
/// lists is seeding the first and then the second — sources contribute one
/// at a time, each adding its own lux on top of what is already there.
pub proof fn lemma_seed_additive(
    l1: Seq<(BoardPosition, i64, (i64, i64, i64), i64)>,
    l2: Seq<(BoardPosition, i64, (i64, i64, i64), i64)>,
    st: FloodState,
)
    ensures
        seed_state(l1 + l2, st) == seed_state(l2, seed_state(l1, st)),
    decreases l2.len(),
{
    if l2.len() == 0 {
        assert(l1 + l2 =~= l1);
    } else {
        assert((l1 + l2).drop_last() =~= l1 + l2.drop_last());
        assert((l1 + l2).last() == l2.last());
        lemma_seed_additive(l1, l2.drop_last(), st);
    }
}

/// Seeding one source raises the lux at its own tile by exactly the
/// source's lux and touches no other tile.
pub proof fn lemma_seed_one_additive(
    l: (BoardPosition, i64, (i64, i64, i64), i64),
    st: FloodState,
    p: (int, int, int),
)
    ensures
        ({
            let sp = (l.0.x as int, l.0.y as int, l.0.z as int);
            let after = seed_state(seq![l], st);
            (p == sp ==> after.field[p].lux == st.field[p].lux + l.1) && (p != sp
                ==> after.field[p] == st.field[p])
        }),
{
    assert(seq![l].drop_last() =~= Seq::<(BoardPosition, i64, (i64, i64, i64), i64)>::empty());
    assert(seq![l].last() == l);
    assert(seed_state(Seq::<(BoardPosition, i64, (i64, i64, i64), i64)>::empty(), st) == st);
    let sp = (l.0.x as int, l.0.y as int, l.0.z as int);
    assert(seed_state(seq![l], st).field == st.field.insert(
        sp,
        deposit_spec(st.field[sp], l.1 as int, (l.2.0 as int, l.2.1 as int, l.2.2 as int)),
    ));
}

/// Idempotence of the lighting rebuild: the rebuilt state is a function of
/// the bake, the collision field, the map size and the entity snapshot
/// alone. Two boards that agree on those — in particular a board before
/// and after a rebuild, which writes only the light field and the exposure
/// — rebuild to the identical light field, so running the rebuild twice
/// with no intervening change reproduces its output exactly.
pub proof fn lemma_lighting_rebuild_idempotent(
    a: crate::boarddata::BoardData,
    b: crate::boarddata::BoardData,
    snap: Seq<EntitySnapshot>,
)
    requires
        crate::grids::prebaked_grid_map(a.prebaked_lighting) == crate::grids::prebaked_grid_map(
            b.prebaked_lighting,
        ),
        collision_grid_map(a.collision_field) == collision_grid_map(b.collision_field),
        a.map_size == b.map_size,
    ensures
        lighting_rebuild_state_spec(
            crate::grids::prebaked_grid_map(a.prebaked_lighting),
            collision_grid_map(a.collision_field),
            a.dims(),
            snap,
        ) == lighting_rebuild_state_spec(
            crate::grids::prebaked_grid_map(b.prebaked_lighting),
            collision_grid_map(b.collision_field),
            b.dims(),
            snap,
        ),
{
}

} // verus!

verus! {

/// A one-tile-high, one-tile-deep board where every tile passes light.
pub open spec fn corridor_open(
    col: Map<(int, int, int), CollisionFieldData>,
    size: (int, int, int),
) -> bool {
    &&& size.1 == 1 && size.2 == 1 && size.0 >= 1
    &&& forall|p: (int, int, int)| in_bounds_spec(size, p) ==> (#[trigger] col[p]).see_through
}

/// Exactly the corridor tiles up to column `x` are visited.
pub open spec fn corridor_visited_upto(vis: Set<(int, int, int)>, x: int) -> bool {
    forall|p: (int, int, int)|
        #[trigger] vis.contains(p) <==> (p.1 == 0 && p.2 == 0 && 0 <= p.0 <= x)
}

/// The lux a wavefront entry of lux `l` and budget `r` delivers to the
/// tile `k` hops further down an open corridor: `k` rounds of attenuation,
/// or nothing once the budget or the propagation floor cuts the chain.
pub open spec fn chain_contrib(l: int, r: int, k: nat) -> int
    decreases k,
{
    if k == 0 {
        0
    } else if r <= 0 || l < EPSILON_MILLI || falloff_spec(l) < EPSILON_MILLI {
        0
    } else if k == 1 {
        falloff_spec(l)
    } else {
        chain_contrib(falloff_spec(l), r - (crate::MILLI as int), (k - 1) as nat)
    }
}

/// Characterizes the flood on an open corridor: a single wavefront entry
/// at column `x` adds exactly `chain_contrib` of itself to each column
/// beyond `x` and touches nothing else.
proof fn lemma_corridor_flood(
    col: Map<(int, int, int), CollisionFieldData>,
    size: (int, int, int),
    st: FloodState,
    x: int,
    l: int,
    r: int,
    c: (int, int, int),
)
    requires
        corridor_open(col, size),
        0 <= x < size.0,
        st.queue == seq![SpecItem { pos: (x, 0, 0), rem: r, lux: l, color: c }],
        corridor_visited_upto(st.visited, x),
    ensures
        forall|j: int|
            x < j < size.0 ==> (#[trigger] flood_spec(col, size, st).field[(j, 0, 0)]).lux
                == st.field[(j, 0, 0)].lux + chain_contrib(l, r, (j - x) as nat),
        forall|p: (int, int, int)|
            !(p.1 == 0 && p.2 == 0 && p.0 > x) ==> (#[trigger] flood_spec(col, size, st).field[p])
                == st.field[p],
    decreases qsum(st.queue),
{
    let item = SpecItem { pos: (x, 0, 0), rem: r, lux: l, color: c };
    let rest = FloodState {
        field: st.field,
        visited: st.visited,
        queue: st.queue.drop_first(),
        count: st.count,
    };
    assert(st.queue[0] == item);
    assert(rest.queue =~= Seq::<SpecItem>::empty());
    assert(qsum(st.queue) == pow5(hops_left(r)) + qsum(rest.queue));
    lemma_pow5_pos(hops_left(r));
    if r <= 0 || l < EPSILON_MILLI {
        assert(flood_spec(col, size, st) == flood_spec(col, size, rest));
        assert(flood_spec(col, size, rest) == rest);
    } else {
        let s0 = flood_dir_step(col, size, item, 0, rest);
        assert(s0 == rest) by {
            assert(!in_bounds_spec(size, (x as int, 1int, 0int)));
        }
        let s1 = flood_dir_step(col, size, item, 1, s0);
        let l1 = falloff_spec(l);
        let np = (x + 1, 0, 0);
        if x + 1 < size.0 && l1 >= EPSILON_MILLI {
            assert(!s0.visited.contains(np));
            assert(col[np].see_through);
            assert(s1 == FloodState {
                field: s0.field.insert(np, deposit_spec(s0.field[np], l1, c)),
                visited: s0.visited.insert(np),
                queue: s0.queue.push(
                    SpecItem { pos: np, rem: r - (crate::MILLI as int), lux: l1, color: c },
                ),
                count: s0.count + 1,
            });
        } else {
            assert(s1 == s0);
        }
        let s2 = flood_dir_step(col, size, item, 2, s1);
        assert(s2 == s1) by {
            assert(!in_bounds_spec(size, (x as int, -1int, 0int)));
        }
        let s3 = flood_dir_step(col, size, item, 3, s2);
        assert(s3 == s2) by {
            if in_bounds_spec(size, (x - 1, 0, 0)) {
                assert(s2.visited.contains((x - 1, 0, 0)));
            }
        }
        assert(flood_dirs(col, size, item, 0, rest) == s3) by {
            assert(flood_dirs(col, size, item, 4, s3) == s3);
            assert(flood_dirs(col, size, item, 3, s2) == flood_dirs(col, size, item, 4, s3));
            assert(flood_dirs(col, size, item, 2, s1) == flood_dirs(col, size, item, 3, s2));
            assert(flood_dirs(col, size, item, 1, s0) == flood_dirs(col, size, item, 2, s1));
            assert(flood_dirs(col, size, item, 0, rest) == flood_dirs(col, size, item, 1, s0));
        }
        assert(flood_spec(col, size, st) == flood_spec(col, size, s3));
        if x + 1 < size.0 && l1 >= EPSILON_MILLI {
            let next = SpecItem { pos: np, rem: r - (crate::MILLI as int), lux: l1, color: c };
            assert(s3.queue =~= seq![next]);
            assert(corridor_visited_upto(s3.visited, x + 1)) by {
                assert forall|p: (int, int, int)| #[trigger]
                    s3.visited.contains(p) <==> (p.1 == 0 && p.2 == 0 && 0 <= p.0 <= x + 1) by {
                    if p == np {
                    } else {
                        assert(s3.visited.contains(p) == st.visited.contains(p));
                    }
                }
            }
            lemma_qsum_push(rest.queue, next);
            lemma_hops_left_step(r);
            lemma_pow5_unfold(hops_left(r));
            assert(qsum(s3.queue) < qsum(st.queue));
            lemma_corridor_flood(col, size, s3, x + 1, l1, r - (crate::MILLI as int), c);
            let fin = flood_spec(col, size, s3);
            assert forall|j: int|
                x < j < size.0 implies (#[trigger] flood_spec(col, size, st).field[(j, 0, 0)]).lux
                == st.field[(j, 0, 0)].lux + chain_contrib(l, r, (j - x) as nat) by {
                if j == x + 1 {
                    assert(fin.field[(x + 1, 0, 0)] == s3.field[(x + 1, 0, 0)]);
                    assert(s3.field[(x + 1, 0, 0)] == deposit_spec(st.field[np], l1, c));
                    assert(chain_contrib(l, r, 1nat) == l1);
                } else {
                    assert(fin.field[(j, 0, 0)].lux == s3.field[(j, 0, 0)].lux + chain_contrib(
                        l1,
                        r - (crate::MILLI as int),
                        (j - x - 1) as nat,
                    ));
                    assert(s3.field[(j, 0, 0)] == st.field[(j, 0, 0)]);
                    assert(chain_contrib(l, r, (j - x) as nat) == chain_contrib(
                        l1,
                        r - (crate::MILLI as int),
                        (j - x - 1) as nat,
                    ));
                }
            }
            assert forall|p: (int, int, int)|
                !(p.1 == 0 && p.2 == 0 && p.0 > x) implies (#[trigger] flood_spec(
                col,
                size,
                st,
            ).field[p]) == st.field[p] by {
                assert(!(p.1 == 0 && p.2 == 0 && p.0 > x + 1));
                assert(fin.field[p] == s3.field[p]);
                assert(p != np);
            }
        } else {
            assert(s3.queue =~= Seq::<SpecItem>::empty());
            assert(flood_spec(col, size, s3) == s3);
            assert forall|j: int|
                x < j < size.0 implies #[trigger] chain_contrib(l, r, (j - x) as nat) == 0 by {
                if j == x + 1 {
                } else {
                }
            }
        }
    }
}

/// One more hop down the chain never brightens, and strictly dims while
/// the arriving contribution still clears the propagation floor.
proof fn lemma_chain_monotone(l: int, r: int, k: nat)
    requires
        k >= 1,
        0 <= l,
    ensures
        0 <= chain_contrib(l, r, (k + 1) as nat) <= chain_contrib(l, r, k),
        chain_contrib(l, r, (k + 1) as nat) >= EPSILON_MILLI ==> chain_contrib(l, r, (k + 1) as nat)
            < chain_contrib(l, r, k),
    decreases k,
{
    lemma_falloff_attenuates(l);
    if r <= 0 || l < EPSILON_MILLI || falloff_spec(l) < EPSILON_MILLI {
        assert(chain_contrib(l, r, k) == 0);
        assert(chain_contrib(l, r, (k + 1) as nat) == 0);
    } else if k == 1 {
        let l1 = falloff_spec(l);
        lemma_falloff_attenuates(l1);
        assert(chain_contrib(l, r, 1nat) == l1);
        assert(chain_contrib(l, r, 2nat) == chain_contrib(l1, r - (crate::MILLI as int), 1nat));
    } else {
        lemma_chain_monotone(falloff_spec(l), r - (crate::MILLI as int), (k - 1) as nat);
    }
}

/// Monotonic attenuation: in an open corridor with a single wavefront
/// source over an evenly lit floor, the flooded lux never increases with
/// distance from the source, and strictly decreases from one column to the
/// next while the arriving contribution still clears the propagation
/// floor.
pub proof fn lemma_single_source_attenuation(
    col: Map<(int, int, int), CollisionFieldData>,
    size: (int, int, int),
    st: FloodState,
    x: int,
    l: int,
    r: int,
    c: (int, int, int),
    base: int,
    j: int,
)
    requires
        corridor_open(col, size),
        0 <= x < size.0,
        0 <= l,
        st.queue == seq![SpecItem { pos: (x, 0, 0), rem: r, lux: l, color: c }],
        corridor_visited_upto(st.visited, x),
        forall|p: (int, int, int)|
            in_bounds_spec(size, p) && p.0 > x ==> (#[trigger] st.field[p]).lux == base,
        x < j && j + 1 < size.0,
    ensures
        flood_spec(col, size, st).field[(j + 1, 0, 0)].lux <= flood_spec(col, size, st).field[
            (j, 0, 0)].lux,
        chain_contrib(l, r, (j + 1 - x) as nat) >= EPSILON_MILLI ==> flood_spec(
            col,
            size,
            st,
        ).field[(j + 1, 0, 0)].lux < flood_spec(col, size, st).field[(j, 0, 0)].lux,
{
    lemma_corridor_flood(col, size, st, x, l, r, c);
    lemma_chain_monotone(l, r, (j - x) as nat);
    assert(st.field[(j, 0, 0)].lux == base);
    assert(st.field[(j + 1, 0, 0)].lux == base);
}

} // verus!

verus! {

/// Every given light stands neither on `p` nor on one of its four
/// neighbors.
pub open spec fn lights_avoid(
    lights: Seq<(BoardPosition, i64, (i64, i64, i64), i64)>,
    p: (int, int, int),
) -> bool {
    forall|i: int|
        0 <= i < lights.len() ==> ((#[trigger] lights[i]).0.x as int, lights[i].0.y as int,
        lights[i].0.z as int) != p && !adjacent4(
            (lights[i].0.x as int, lights[i].0.y as int, lights[i].0.z as int),
            p,
        )
}

/// Seeding sources that avoid a tile and its four neighbors leaves that
/// tile's light untouched and yields a wavefront that avoids it too.
proof fn lemma_seed_avoids(
    lights: Seq<(BoardPosition, i64, (i64, i64, i64), i64)>,
    st: FloodState,
    p: (int, int, int),
)
    requires
        lights_avoid(lights, p),
        queue_avoids(st.queue, p),
    ensures
        seed_state(lights, st).field[p] == st.field[p],
        queue_avoids(seed_state(lights, st).queue, p),
    decreases lights.len(),
{
    if lights.len() > 0 {
        assert(lights_avoid(lights.drop_last(), p)) by {
            assert(forall|i: int|
                0 <= i < lights.drop_last().len() ==> #[trigger] lights.drop_last()[i]
                    == lights[i]);
        }
        lemma_seed_avoids(lights.drop_last(), st, p);
        let prev = seed_state(lights.drop_last(), st);
        let cur = seed_state(lights, st);
        let l = lights.last();
        let lp = (l.0.x as int, l.0.y as int, l.0.z as int);
        assert(lp != p);
        assert forall|i: int| 0 <= i < cur.queue.len() implies (#[trigger] cur.queue[i]).pos != p
            && !adjacent4(cur.queue[i].pos, p) by {
            if i < prev.queue.len() {
                assert(cur.queue[i] == prev.queue[i]);
            } else {
                assert(cur.queue[i].pos == lp);
            }
        }
    }
}

/// Occlusion correctness of the dynamic flood path: a tile walled off by
/// non-see-through tiles on all four sides, with no dynamic source on it
/// or on its walls, receives zero propagated lux from any source — the
/// whole seed-and-flood pass leaves its light exactly as it was.
pub proof fn lemma_dynamic_flood_occluded(
    col: Map<(int, int, int), CollisionFieldData>,
    size: (int, int, int),
    lights: Seq<(BoardPosition, i64, (i64, i64, i64), i64)>,
    field0: Map<(int, int, int), SpecTile>,
    p: (int, int, int),
)
    requires
        enclosed(col, size, p),
        lights_avoid(lights, p),
    ensures
        ({
            let seeded = seed_state(
                lights,
                FloodState { field: field0, visited: Set::empty(), queue: Seq::empty(), count: 0 },
            );
            flood_spec(col, size, seeded).field[p] == field0[p]
        }),
{
    let init = FloodState {
        field: field0,
        visited: Set::empty(),
        queue: Seq::empty(),
        count: 0,
    };
    lemma_seed_avoids(lights, init, p);
    lemma_flood_occluded(col, size, seed_state(lights, init), p);
}

} // verus!

verus! {

/// Door reactivity, the monotone half: resuming propagation from wave
/// edges — which is all that an opened door adds to a rebuild — never
/// darkens any tile; every tile ends with at least the lux it had before
/// the resumption. Shutting the door restores the old field because the
/// rebuilt state is a function of the board state alone.
pub proof fn lemma_wave_resumption_brightens(
    col: Map<(int, int, int), CollisionFieldData>,
    size: (int, int, int),
    field0: Map<(int, int, int), SpecTile>,
    visited0: Set<(int, int, int)>,
    wave_queue: Seq<SpecItem>,
    p: (int, int, int),
)
    ensures
        flood_spec(
            col,
            size,
            FloodState { field: field0, visited: visited0, queue: wave_queue, count: 0 },
        ).field[p].lux >= field0[p].lux,
{
    lemma_flood_monotone(
        col,
        size,
        FloodState { field: field0, visited: visited0, queue: wave_queue, count: 0 },
        p,
    );
}

} // verus!
