use vstd::prelude::*;
use crate::behavior::EntitySnapshot;
use crate::boardposition::BoardPosition;
use crate::fielddata::{CollisionFieldData, LightInfo, PrebakedLightingData};
use crate::grids::{grid_in_dims, prebaked_grid_map, Grid3};
use crate::lighting::{
    dir_offset, falloff, falloff_spec, hops_left, in_bounds_spec, is_in_bounds, lift_item,
    lift_queue, pow5, qsum, true_set, FloodQueue, QueueItem, SpecItem, EPSILON_MILLI, LUX_LIMIT,
    COLOR_CAP,
};

verus! {

/// Hop budget of the static bake's propagation, in milli-tiles.
pub const BAKE_RANGE_MILLI: i64 = 30000;

/// Every bake tile carries in-range numbers.
pub open spec fn bake_tiles_ok(
    m: Map<(int, int, int), PrebakedLightingData>,
    size: (int, int, int),
) -> bool {
    forall|p: (int, int, int)|
        in_bounds_spec(size, p) ==> 0 <= (#[trigger] m[p]).light_info.lux <= LUX_LIMIT && 0
            <= m[p].light_info.color.0 <= COLOR_CAP && 0 <= m[p].light_info.color.1 <= COLOR_CAP
            && 0 <= m[p].light_info.color.2 <= COLOR_CAP
}

/// Overwrites one tile of the static bake; meant for map loaders that
/// bring a bake of their own.
pub fn set_prebaked_tile(
    bf: &mut crate::boarddata::BoardData,
    pos: &BoardPosition,
    data: PrebakedLightingData,
)
    requires
        old(bf).wf(),
        grid_in_dims(old(bf).dims(), pos.x as int, pos.y as int, pos.z as int),
    ensures
        final(bf).wf(),
        *final(bf) == (crate::boarddata::BoardData {
            prebaked_lighting: final(bf).prebaked_lighting,
            ..*old(bf)
        }),
        prebaked_grid_map(final(bf).prebaked_lighting) == prebaked_grid_map(
            old(bf).prebaked_lighting,
        ).insert((pos.x as int, pos.y as int, pos.z as int), data),
{
    let idx = pos.ndidx();
    crate::grids::prebaked_grid_set(&mut bf.prebaked_lighting, idx.0, idx.1, idx.2, data);
}

/// The whole state one source's bake flood works on: the bake so far, the
/// tiles this source already visited, and its pending wavefront.
pub struct BakeState {
    pub bake: Map<(int, int, int), PrebakedLightingData>,
    pub visited: Set<(int, int, int)>,
    pub queue: Seq<SpecItem>,
}

/// One direction of one bake wavefront step. An opaque neighbor stops the
/// front and marks the current tile as a wave edge; a see-through,
/// unvisited neighbor takes the attenuated contribution when it clears the
/// floor and is stronger than what the bake already holds there, and joins
/// the wavefront either way.
pub open spec fn bake_dir_step(
    col: Map<(int, int, int), CollisionFieldData>,
    size: (int, int, int),
    sid: u32,
    item: SpecItem,
    d: int,
    st: BakeState,
) -> BakeState {
    let off = dir_offset(d);
    let np = (item.pos.0 + off.0, item.pos.1 + off.1, item.pos.2 + off.2);
    if !in_bounds_spec(size, np) {
        st
    } else if !col[np].see_through {
        BakeState {
            bake: st.bake.insert(
                item.pos,
                PrebakedLightingData {
                    light_info: st.bake[item.pos].light_info,
                    is_wave_edge: true,
                },
            ),
            visited: st.visited,
            queue: st.queue,
        }
    } else if st.visited.contains(np) {
        st
    } else {
        let new_lux = falloff_spec(item.lux);
        if new_lux < EPSILON_MILLI {
            st
        } else {
            let recorded = if new_lux > st.bake[np].light_info.lux {
                st.bake.insert(
                    np,
                    PrebakedLightingData {
                        light_info: LightInfo {
                            source_id: Some(sid),
                            lux: new_lux as i64,
                            color: (
                                item.color.0 as i64,
                                item.color.1 as i64,
                                item.color.2 as i64,
                            ),
                        },
                        is_wave_edge: st.bake[np].is_wave_edge,
                    },
                )
            } else {
                st.bake
            };
            BakeState {
                bake: recorded,
                visited: st.visited.insert(np),
                queue: st.queue.push(
                    SpecItem {
                        pos: np,
                        rem: item.rem - (crate::MILLI as int),
                        lux: new_lux,
                        color: item.color,
                    },
                ),
            }
        }
    }
}

/// All four directions of one bake wavefront step, tried in order from `d`.
pub open spec fn bake_dirs(
    col: Map<(int, int, int), CollisionFieldData>,
    size: (int, int, int),
    sid: u32,
    item: SpecItem,
    d: int,
    st: BakeState,
) -> BakeState
    decreases 4 - d,
{
    if d < 0 || d >= 4 {
        st
    } else {
        bake_dirs(col, size, sid, item, d + 1, bake_dir_step(col, size, sid, item, d, st))
    }
}

/// Spreading one bake wavefront entry grows the queue workload by at most
/// four times the workload of a one-hop-shorter entry.
proof fn lemma_bake_dirs_qsum(
    col: Map<(int, int, int), CollisionFieldData>,
    size: (int, int, int),
    sid: u32,
    item: SpecItem,
    d: int,
    st: BakeState,
)
    requires
        0 <= d <= 4,
        item.rem > 0,
    ensures
        qsum(bake_dirs(col, size, sid, item, d, st).queue) <= qsum(st.queue) + (4 - d) * pow5(
            (hops_left(item.rem) - 1) as nat,
        ),
    decreases 4 - d,
{
    crate::lighting::lemma_hops_left_pos(item.rem);
    let p = pow5((hops_left(item.rem) - 1) as nat);
    if d < 4 {
        let st2 = bake_dir_step(col, size, sid, item, d, st);
        lemma_bake_dirs_qsum(col, size, sid, item, d + 1, st2);
        assert(qsum(bake_dirs(col, size, sid, item, d, st).queue) <= qsum(st2.queue) + (4 - (d
            + 1)) * p);
        if st2.queue != st.queue {
            let pushed = SpecItem {
                pos: (
                    item.pos.0 + dir_offset(d).0,
                    item.pos.1 + dir_offset(d).1,
                    item.pos.2 + dir_offset(d).2,
                ),
                rem: item.rem - (crate::MILLI as int),
                lux: falloff_spec(item.lux),
                color: item.color,
            };
            assert(st2.queue == st.queue.push(pushed));
            crate::lighting::lemma_qsum_push(st.queue, pushed);
            crate::lighting::lemma_hops_left_step(item.rem);
            assert(qsum(st2.queue) == qsum(st.queue) + p);
            assert((4 - (d + 1)) * p + p == (4 - d) * p) by (nonlinear_arith);
        } else {
            assert((4 - (d + 1)) * p <= (4 - d) * p) by (nonlinear_arith)
                requires
                    d < 4 && p >= 0,
            ;
        }
    }
}

/// The whole bake flood of one source: process the wavefront queue front
/// to back until it is empty; entries whose budget or lux is exhausted
/// are dropped, the rest spread to their four neighbors.
pub open spec fn bake_flood_spec(
    col: Map<(int, int, int), CollisionFieldData>,
    size: (int, int, int),
    sid: u32,
    st: BakeState,
) -> BakeState
    decreases qsum(st.queue),
    via bake_flood_dec
{
    if st.queue.len() == 0 {
        st
    } else {
        let item = st.queue[0];
        let rest = BakeState { bake: st.bake, visited: st.visited, queue: st.queue.drop_first() };
        if item.rem <= 0 || item.lux < EPSILON_MILLI {
            bake_flood_spec(col, size, sid, rest)
        } else {
            bake_flood_spec(col, size, sid, bake_dirs(col, size, sid, item, 0, rest))
        }
    }
}

#[via_fn]
proof fn bake_flood_dec(
    col: Map<(int, int, int), CollisionFieldData>,
    size: (int, int, int),
    sid: u32,
    st: BakeState,
) {
    if st.queue.len() != 0 {
        let item = st.queue[0];
        let rest = BakeState { bake: st.bake, visited: st.visited, queue: st.queue.drop_first() };
        assert(qsum(st.queue) == pow5(hops_left(item.rem)) + qsum(rest.queue));
        crate::lighting::lemma_pow5_pos(hops_left(item.rem));
        if !(item.rem <= 0 || item.lux < EPSILON_MILLI) {
            crate::lighting::lemma_hops_left_pos(item.rem);
            lemma_bake_dirs_qsum(col, size, sid, item, 0, rest);
            crate::lighting::lemma_pow5_unfold(hops_left(item.rem));
            assert(4 * pow5((hops_left(item.rem) - 1) as nat) < 5 * pow5(
                (hops_left(item.rem) - 1) as nat,
            )) by (nonlinear_arith)
                requires
                    pow5((hops_left(item.rem) - 1) as nat) >= 1,
            ;
        }
    }
}

/// Installing one source at its own tile: the bake takes the source's full
/// strength there when it beats what the bake already holds.
pub open spec fn bake_seed(
    bake: Map<(int, int, int), PrebakedLightingData>,
    sid: u32,
    pos: (int, int, int),
    lux: i64,
    color: (i64, i64, i64),
) -> Map<(int, int, int), PrebakedLightingData> {
    if lux > bake[pos].light_info.lux {
        bake.insert(
            pos,
            PrebakedLightingData {
                light_info: LightInfo { source_id: Some(sid), lux, color },
                is_wave_edge: bake[pos].is_wave_edge,
            },
        )
    } else {
        bake
    }
}

/// The bake after one whole source was seeded and flooded over `bake0`.
pub open spec fn bake_source_spec(
    col: Map<(int, int, int), CollisionFieldData>,
    size: (int, int, int),
    sid: u32,
    pos: (int, int, int),
    lux: i64,
    color: (i64, i64, i64),
    bake0: Map<(int, int, int), PrebakedLightingData>,
) -> Map<(int, int, int), PrebakedLightingData> {
    bake_flood_spec(
        col,
        size,
        sid,
        BakeState {
            bake: bake_seed(bake0, sid, pos, lux, color),
            visited: Set::empty().insert(pos),
            queue: seq![
                SpecItem {
                    pos: pos,
                    rem: BAKE_RANGE_MILLI as int,
                    lux: lux as int,
                    color: (color.0 as int, color.1 as int, color.2 as int),
                },
            ],
        },
    ).bake
}

/// The whole static bake of a snapshot over a board: the first `k` entries
/// processed in order, every emitting entity with positive emissivity
/// taking the next source id and flooding; the second component is the
/// next free id.
pub open spec fn bake_all_upto(
    col: Map<(int, int, int), CollisionFieldData>,
    size: (int, int, int),
    snap: Seq<EntitySnapshot>,
    k: nat,
) -> (Map<(int, int, int), PrebakedLightingData>, int)
    decreases k,
{
    if k == 0 {
        (crate::grids::grid_fill_map(size, PrebakedLightingData::empty_spec()), 0)
    } else {
        let prev = bake_all_upto(col, size, snap, (k - 1) as nat);
        let e = snap[k - 1];
        if e.props.light.emits_light && e.props.light.lux > 0 && prev.1 < 0xffffffff {
            (
                bake_source_spec(
                    col,
                    size,
                    prev.1 as u32,
                    (e.pos.x as int, e.pos.y as int, e.pos.z as int),
                    e.props.light.lux,
                    e.props.light.color,
                    prev.0,
                ),
                prev.1 + 1,
            )
        } else {
            prev
        }
    }
}

/// The finished static bake of a snapshot over a board.
pub open spec fn bake_spec(
    col: Map<(int, int, int), CollisionFieldData>,
    size: (int, int, int),
    snap: Seq<EntitySnapshot>,
) -> Map<(int, int, int), PrebakedLightingData> {
    bake_all_upto(col, size, snap, snap.len()).0
}

/// Builds the static lighting bake for the current geometry: every
/// emitting entity becomes a numbered static source and floods through
/// see-through tiles with the standard per-hop falloff until the
/// propagation floor or the hop budget is reached. Each tile keeps its
/// single strongest contributor. Wherever a wavefront is stopped by an
/// opaque tile, the last reachable tile is marked as a wave edge, so the
/// runtime propagator knows where to resume once a gate opens. The result
/// is exactly `bake_spec` of the snapshot over the collision field. Run
/// once per level load, never per frame.
#[verifier::loop_isolation(false)]
pub fn bake_static_lighting(
    bf: &mut crate::boarddata::BoardData,
    snapshot: &Vec<EntitySnapshot>,
)
    requires
        old(bf).wf(),
        crate::lighting::snapshot_in_bounds(snapshot@, old(bf).dims()),
        crate::lighting::snapshot_lights_ok(snapshot@),
    ensures
        final(bf).wf(),
        *final(bf) == (crate::boarddata::BoardData {
            prebaked_lighting: final(bf).prebaked_lighting,
            ..*old(bf)
        }),
        prebaked_grid_map(final(bf).prebaked_lighting) == bake_spec(
            crate::grids::collision_grid_map(old(bf).collision_field),
            old(bf).dims(),
            snapshot@,
        ),
        bake_tiles_ok(prebaked_grid_map(final(bf).prebaked_lighting), old(bf).dims()),
{
    let ghost dims = bf.dims();
    let ghost colmap = crate::grids::collision_grid_map(bf.collision_field);
    let (sx, sy, sz): (usize, usize, usize) = bf.map_size;
    // Start from an empty bake.
    bf.prebaked_lighting = crate::grids::prebaked_grid_new(
        sx,
        sy,
        sz,
        PrebakedLightingData::empty(),
    );
    let mut next_id: u32 = 0;
    let mut e: usize = 0;
    while e < snapshot.len()
        invariant
            0 <= e <= snapshot@.len(),
            bf.wf(),
            bf.dims() == dims,
            bf.map_size == old(bf).map_size,
            *bf == (crate::boarddata::BoardData {
                prebaked_lighting: bf.prebaked_lighting,
                ..*old(bf)
            }),
            bake_tiles_ok(prebaked_grid_map(bf.prebaked_lighting), dims),
            (prebaked_grid_map(bf.prebaked_lighting), next_id as int) == bake_all_upto(
                colmap,
                dims,
                snapshot@,
                e as nat,
            ),
        decreases snapshot@.len() - e,
    {
        let entry = snapshot[e];
        if entry.props.light.emits_light && entry.props.light.lux > 0 && next_id < 0xffffffff {
            let source_id: u32 = next_id;
            next_id = next_id + 1;
            bake_one_source(
                bf,
                source_id,
                &entry.pos,
                entry.props.light.lux,
                entry.props.light.color,
            );
        }
        e = e + 1;
    }
}

/// Floods one static source through the board, recording it into the bake
/// wherever it is that tile's strongest contributor, and marking wave
/// edges where opaque tiles stop it; the result is exactly
/// `bake_source_spec` over the bake it started from.
#[verifier::loop_isolation(false)]
fn bake_one_source(
    bf: &mut crate::boarddata::BoardData,
    source_id: u32,
    pos: &BoardPosition,
    lux: i64,
    color: (i64, i64, i64),
)
    requires
        old(bf).wf(),
        grid_in_dims(old(bf).dims(), pos.x as int, pos.y as int, pos.z as int),
        0 < lux <= LUX_LIMIT,
        0 <= color.0 <= COLOR_CAP && 0 <= color.1 <= COLOR_CAP && 0 <= color.2 <= COLOR_CAP,
        bake_tiles_ok(prebaked_grid_map(old(bf).prebaked_lighting), old(bf).dims()),
    ensures
        final(bf).wf(),
        *final(bf) == (crate::boarddata::BoardData {
            prebaked_lighting: final(bf).prebaked_lighting,
            ..*old(bf)
        }),
        prebaked_grid_map(final(bf).prebaked_lighting) == bake_source_spec(
            crate::grids::collision_grid_map(old(bf).collision_field),
            old(bf).dims(),
            source_id,
            (pos.x as int, pos.y as int, pos.z as int),
            lux,
            color,
            prebaked_grid_map(old(bf).prebaked_lighting),
        ),
        bake_tiles_ok(prebaked_grid_map(final(bf).prebaked_lighting), old(bf).dims()),
{
    let ghost dims = bf.dims();
    let ghost colmap = crate::grids::collision_grid_map(bf.collision_field);
    let ghost sp = (pos.x as int, pos.y as int, pos.z as int);
    let (sx, sy, sz): (usize, usize, usize) = bf.map_size;
    let mut visited: Grid3<bool> = crate::grids::bool_grid_new(sx, sy, sz, false);
    let mut queue = FloodQueue::new();
    let idx = pos.ndidx();
    // The source tile takes the full contribution if it is the strongest.
    let cur = crate::grids::prebaked_grid_get(&bf.prebaked_lighting, idx.0, idx.1, idx.2);
    if lux > cur.light_info.lux {
        crate::grids::prebaked_grid_set(
            &mut bf.prebaked_lighting,
            idx.0,
            idx.1,
            idx.2,
            PrebakedLightingData {
                light_info: LightInfo { source_id: Some(source_id), lux, color },
                is_wave_edge: cur.is_wave_edge,
            },
        );
    }
    crate::grids::bool_grid_set(&mut visited, idx.0, idx.1, idx.2, true);
    queue.push_back(QueueItem { pos: *pos, rem: BAKE_RANGE_MILLI, lux, color });
    let ghost st0 = BakeState {
        bake: prebaked_grid_map(bf.prebaked_lighting),
        visited: true_set(crate::grids::bool_grid_map(visited)),
        queue: lift_queue(queue.view_spec()),
    };
    proof {
        assert(st0.bake == bake_seed(
            prebaked_grid_map(old(bf).prebaked_lighting),
            source_id,
            sp,
            lux,
            color,
        ));
        assert(st0.visited =~= Set::empty().insert(sp));
        assert(st0.queue =~= seq![
            SpecItem {
                pos: sp,
                rem: BAKE_RANGE_MILLI as int,
                lux: lux as int,
                color: (color.0 as int, color.1 as int, color.2 as int),
            },
        ]);
    }
    while queue.remaining() > 0
        invariant
            queue.wf(),
            bf.wf(),
            bf.dims() == dims,
            bf.map_size == old(bf).map_size,
            *bf == (crate::boarddata::BoardData {
                prebaked_lighting: bf.prebaked_lighting,
                ..*old(bf)
            }),
            bake_tiles_ok(prebaked_grid_map(bf.prebaked_lighting), dims),
            crate::grids::bool_grid_dims(visited) == dims,
            crate::grids::grid_dom_ok(dims, crate::grids::bool_grid_map(visited)),
            crate::lighting::queue_ok(dims, lift_queue(queue.view_spec())),
            bake_flood_spec(
                colmap,
                dims,
                source_id,
                BakeState {
                    bake: prebaked_grid_map(bf.prebaked_lighting),
                    visited: true_set(crate::grids::bool_grid_map(visited)),
                    queue: lift_queue(queue.view_spec()),
                },
            ) == bake_flood_spec(colmap, dims, source_id, st0),
        decreases qsum(lift_queue(queue.view_spec())),
    {
        let ghost pre = BakeState {
            bake: prebaked_grid_map(bf.prebaked_lighting),
            visited: true_set(crate::grids::bool_grid_map(visited)),
            queue: lift_queue(queue.view_spec()),
        };
        let ghost qv0 = queue.view_spec();
        let item = queue.pop_front();
        let ghost itspec = lift_item(item);
        proof {
            crate::lighting::lemma_lift_queue_drop_first(qv0);
            assert(lift_queue(qv0)[0] == itspec);
            assert(pre.queue[0] == itspec);
            assert(qsum(pre.queue) == pow5(hops_left(itspec.rem)) + qsum(pre.queue.drop_first()));
            crate::lighting::lemma_pow5_pos(hops_left(itspec.rem));
            assert(crate::lighting::item_ok(dims, itspec));
        }
        if item.rem <= 0 || item.lux < EPSILON_MILLI {
            proof {
                let rest = BakeState {
                    bake: pre.bake,
                    visited: pre.visited,
                    queue: pre.queue.drop_first(),
                };
                assert(bake_flood_spec(colmap, dims, source_id, pre) == bake_flood_spec(
                    colmap,
                    dims,
                    source_id,
                    rest,
                ));
            }
        } else {
            let ghost after_pop = BakeState {
                bake: pre.bake,
                visited: pre.visited,
                queue: pre.queue.drop_first(),
            };
            proof {
                assert(bake_flood_spec(colmap, dims, source_id, pre) == bake_flood_spec(
                    colmap,
                    dims,
                    source_id,
                    bake_dirs(colmap, dims, source_id, itspec, 0, after_pop),
                ));
            }
            let new_lux: i64 = falloff(item.lux);
            let ghost hm1 = (hops_left(itspec.rem) - 1) as nat;
            proof {
                crate::lighting::lemma_hops_left_pos(itspec.rem);
                assert(0 * pow5(hm1) == 0) by (nonlinear_arith);
            }
            let mut d: usize = 0;
            while d < 4
                invariant
                    0 <= d <= 4,
                    queue.wf(),
                    bf.wf(),
                    bf.dims() == dims,
                    bf.map_size == old(bf).map_size,
                    *bf == (crate::boarddata::BoardData {
                        prebaked_lighting: bf.prebaked_lighting,
                        ..*old(bf)
                    }),
                    bake_tiles_ok(prebaked_grid_map(bf.prebaked_lighting), dims),
                    crate::grids::bool_grid_dims(visited) == dims,
                    crate::grids::grid_dom_ok(dims, crate::grids::bool_grid_map(visited)),
                    crate::lighting::queue_ok(dims, lift_queue(queue.view_spec())),
                    crate::lighting::item_ok(dims, itspec),
                    itspec.rem > 0,
                    0 <= new_lux <= item.lux,
                    new_lux == falloff_spec(itspec.lux),
                    hm1 == (hops_left(itspec.rem) - 1) as nat,
                    hops_left(itspec.rem) >= 1,
                    bake_dirs(
                        colmap,
                        dims,
                        source_id,
                        itspec,
                        d as int,
                        BakeState {
                            bake: prebaked_grid_map(bf.prebaked_lighting),
                            visited: true_set(crate::grids::bool_grid_map(visited)),
                            queue: lift_queue(queue.view_spec()),
                        },
                    ) == bake_dirs(colmap, dims, source_id, itspec, 0, after_pop),
                    qsum(lift_queue(queue.view_spec())) <= qsum(after_pop.queue) + d * pow5(hm1),
                decreases 4 - d,
            {
                let ghost cur_before = BakeState {
                    bake: prebaked_grid_map(bf.prebaked_lighting),
                    visited: true_set(crate::grids::bool_grid_map(visited)),
                    queue: lift_queue(queue.view_spec()),
                };
                let (dx, dy): (i64, i64) = if d == 0 {
                    (0, 1)
                } else if d == 1 {
                    (1, 0)
                } else if d == 2 {
                    (0, -1)
                } else {
                    (-1, 0)
                };
                proof {
                    assert((dx as int, dy as int, 0int) == dir_offset(d as int));
                }
                let nx: i64 = item.pos.x + dx;
                let ny: i64 = item.pos.y + dy;
                let nz: i64 = item.pos.z;
                let ghost np = (nx as int, ny as int, nz as int);
                let mut pushed_one: bool = false;
                if is_in_bounds((nx, ny, nz), bf.map_size) {
                    let ux: usize = nx as usize;
                    let uy: usize = ny as usize;
                    let uz: usize = nz as usize;
                    let colv = crate::grids::collision_grid_get(&bf.collision_field, ux, uy, uz);
                    if !colv.see_through {
                        // Propagation stops here: remember the stop as a
                        // wave edge so a later gate opening can resume it.
                        let here = item.pos.ndidx();
                        let curpb = crate::grids::prebaked_grid_get(
                            &bf.prebaked_lighting,
                            here.0,
                            here.1,
                            here.2,
                        );
                        crate::grids::prebaked_grid_set(
                            &mut bf.prebaked_lighting,
                            here.0,
                            here.1,
                            here.2,
                            PrebakedLightingData {
                                light_info: curpb.light_info,
                                is_wave_edge: true,
                            },
                        );
                    } else if !crate::grids::bool_grid_get(&visited, ux, uy, uz) {
                        if new_lux >= EPSILON_MILLI {
                            let ghost bmap0 = crate::grids::bool_grid_map(visited);
                            let ghost qv1 = queue.view_spec();
                            crate::grids::bool_grid_set(&mut visited, ux, uy, uz, true);
                            let curpb = crate::grids::prebaked_grid_get(
                                &bf.prebaked_lighting,
                                ux,
                                uy,
                                uz,
                            );
                            if new_lux > curpb.light_info.lux {
                                crate::grids::prebaked_grid_set(
                                    &mut bf.prebaked_lighting,
                                    ux,
                                    uy,
                                    uz,
                                    PrebakedLightingData {
                                        light_info: LightInfo {
                                            source_id: Some(source_id),
                                            lux: new_lux,
                                            color: item.color,
                                        },
                                        is_wave_edge: curpb.is_wave_edge,
                                    },
                                );
                            }
                            let pushed = QueueItem {
                                pos: BoardPosition { x: nx, y: ny, z: nz },
                                rem: item.rem - crate::MILLI,
                                lux: new_lux,
                                color: item.color,
                            };
                            queue.push_back(pushed);
                            pushed_one = true;
                            proof {
                                crate::lighting::lemma_true_set_insert(bmap0, np);
                                crate::lighting::lemma_lift_queue_push(qv1, pushed);
                                crate::lighting::lemma_qsum_push(
                                    lift_queue(qv1),
                                    lift_item(pushed),
                                );
                                crate::lighting::lemma_hops_left_step(itspec.rem);
                            }
                        }
                    }
                }
                proof {
                    let cur_after = BakeState {
                        bake: prebaked_grid_map(bf.prebaked_lighting),
                        visited: true_set(crate::grids::bool_grid_map(visited)),
                        queue: lift_queue(queue.view_spec()),
                    };
                    let step = bake_dir_step(colmap, dims, source_id, itspec, d as int, cur_before);
                    assert(cur_after.visited == step.visited);
                    assert(cur_after.queue == step.queue);
                    assert(cur_after.bake == step.bake);
                    assert(cur_after == step);
                    if pushed_one {
                        assert((d as int + 1) * pow5(hm1) == (d as int) * pow5(hm1) + pow5(hm1))
                            by (nonlinear_arith);
                    } else {
                        assert((d as int) * pow5(hm1) <= (d as int + 1) * pow5(hm1))
                            by (nonlinear_arith)
                            requires
                                d >= 0,
                        ;
                    }
                    assert(bake_dirs(colmap, dims, source_id, itspec, d as int, cur_before)
                        == bake_dirs(
                        colmap,
                        dims,
                        source_id,
                        itspec,
                        d as int + 1,
                        bake_dir_step(colmap, dims, source_id, itspec, d as int, cur_before),
                    ));
                }
                d = d + 1;
            }
            proof {
                let cur_end = BakeState {
                    bake: prebaked_grid_map(bf.prebaked_lighting),
                    visited: true_set(crate::grids::bool_grid_map(visited)),
                    queue: lift_queue(queue.view_spec()),
                };
                assert(bake_dirs(colmap, dims, source_id, itspec, 4, cur_end) == cur_end);
                assert(cur_end == bake_dirs(colmap, dims, source_id, itspec, 0, after_pop));
                crate::lighting::lemma_pow5_unfold(hops_left(itspec.rem));
                assert(4 * pow5(hm1) < 5 * pow5(hm1)) by (nonlinear_arith)
                    requires
                        pow5(hm1) >= 1,
                ;
            }
        }
    }
    proof {
        let cur = BakeState {
            bake: prebaked_grid_map(bf.prebaked_lighting),
            visited: true_set(crate::grids::bool_grid_map(visited)),
            queue: lift_queue(queue.view_spec()),
        };
        assert(bake_flood_spec(colmap, dims, source_id, cur) == cur);
    }
}

} // verus!
