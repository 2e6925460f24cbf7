use unhaunter_core::baker::bake_static_lighting;
use unhaunter_core::behavior::{BehaviorProps, EntitySnapshot, LightProps, MovementProps};
use unhaunter_core::boarddata::BoardData;
use unhaunter_core::boardposition::BoardPosition;
use unhaunter_core::fielddata::LightData;
use unhaunter_core::lighting::{blend_colors, is_in_bounds, rebuild_lighting_field};
use unhaunter_core::board::rebuild_collision_field;

fn plain_props() -> BehaviorProps {
    BehaviorProps {
        movement: MovementProps { walkable: false, player_collision: false, ghost_collision: false },
        light: LightProps {
            emits_light: false,
            lux: 0,
            color: (1000, 1000, 1000),
            see_through: true,
            transmissivity: 1000,
            additional: LightData { infrared: 0, ultraviolet: 0, red: 0 },
        },
        is_door: false,
        open: false,
    }
}

fn light_entity(x: i64, y: i64, z: i64, lux: i64) -> EntitySnapshot {
    let mut props = plain_props();
    props.light.emits_light = true;
    props.light.lux = lux;
    EntitySnapshot { pos: BoardPosition { x, y, z }, props }
}

fn wall_entity(x: i64, y: i64, z: i64) -> EntitySnapshot {
    let mut props = plain_props();
    props.movement.player_collision = true;
    props.light.see_through = false;
    EntitySnapshot { pos: BoardPosition { x, y, z }, props }
}

fn door_entity(x: i64, y: i64, z: i64, open: bool) -> EntitySnapshot {
    let mut props = plain_props();
    props.is_door = true;
    props.open = open;
    props.movement.player_collision = true;
    props.light.see_through = open;
    EntitySnapshot { pos: BoardPosition { x, y, z }, props }
}

fn lux_at(bf: &BoardData, x: i64, y: i64, z: i64) -> i64 {
    bf.light_at(&BoardPosition { x, y, z }).expect("tile in bounds").lux
}

/// A single dynamic source on an open map lights the board radially
/// symmetrically, decreasing with distance, and the exposure follows the
/// average-lux formula.
#[test]
fn five_by_five_radial_symmetry_and_exposure() {
    let mut bf = BoardData::new((5, 5, 1), 6000);
    let snapshot = vec![light_entity(2, 2, 0, 10000)];
    rebuild_lighting_field(&mut bf, &snapshot);

    assert_eq!(lux_at(&bf, 2, 2, 0), 10000);
    // One step out in each direction: same value.
    let ring1 = [
        lux_at(&bf, 1, 2, 0),
        lux_at(&bf, 3, 2, 0),
        lux_at(&bf, 2, 1, 0),
        lux_at(&bf, 2, 3, 0),
    ];
    assert!(ring1.iter().all(|&v| v == ring1[0]));
    assert_eq!(ring1[0], 7500);
    // Two steps along an axis and the diagonals: same value, smaller.
    let ring2 = [
        lux_at(&bf, 0, 2, 0),
        lux_at(&bf, 4, 2, 0),
        lux_at(&bf, 2, 0, 0),
        lux_at(&bf, 2, 4, 0),
        lux_at(&bf, 1, 1, 0),
        lux_at(&bf, 3, 3, 0),
        lux_at(&bf, 1, 3, 0),
        lux_at(&bf, 3, 1, 0),
    ];
    assert!(ring2.iter().all(|&v| v == ring2[0]));
    assert_eq!(ring2[0], 5625);
    assert!(ring2[0] < ring1[0]);

    // Exposure is (average + 2.0) / 2 over all tiles, in milli-units.
    let mut total: i64 = 0;
    for x in 0..5 {
        for y in 0..5 {
            total += lux_at(&bf, x, y, 0);
        }
    }
    let avg = total / 25;
    assert_eq!(bf.exposure_lux, (avg + 2000) / 2);
}

/// A wall cuts a tile's light by more than one extra hop of free-space
/// falloff: the light must go around it.
#[test]
fn wall_blocks_more_than_free_space_falloff() {
    let mut open_bf = BoardData::new((5, 5, 1), 6000);
    let open_snapshot = vec![light_entity(2, 2, 0, 10000)];
    rebuild_lighting_field(&mut open_bf, &open_snapshot);
    let free_value = lux_at(&open_bf, 4, 2, 0);
    assert_eq!(free_value, 5625);

    let mut bf = BoardData::new((5, 5, 1), 6000);
    let snapshot = vec![light_entity(2, 2, 0, 10000), wall_entity(3, 2, 0)];
    rebuild_collision_field(&mut bf, &snapshot);
    rebuild_lighting_field(&mut bf, &snapshot);
    let walled_value = lux_at(&bf, 4, 2, 0);
    // The wall tile itself receives nothing.
    assert_eq!(lux_at(&bf, 3, 2, 0), 0);
    // Around the wall takes four hops instead of two.
    assert_eq!(walled_value, 3163);
    assert!(walled_value < free_value);
    // One extra hop of free-space falloff alone would leave 4218.
    assert!(walled_value < free_value * 750 / 1000);
}

/// A tile enclosed by opaque tiles on all four sides receives zero
/// propagated lux from any external source.
#[test]
fn enclosed_tile_receives_nothing() {
    let mut bf = BoardData::new((5, 5, 1), 6000);
    let snapshot = vec![
        light_entity(0, 0, 0, 10000),
        wall_entity(1, 2, 0),
        wall_entity(3, 2, 0),
        wall_entity(2, 1, 0),
        wall_entity(2, 3, 0),
    ];
    rebuild_collision_field(&mut bf, &snapshot);
    rebuild_lighting_field(&mut bf, &snapshot);
    assert_eq!(lux_at(&bf, 2, 2, 0), 0);
    // The source still lights its own side.
    assert_eq!(lux_at(&bf, 0, 0, 0), 10000);
    assert!(lux_at(&bf, 1, 0, 0) > 0);
}

/// A prebaked wave edge behind a closed door stays dark beyond the door;
/// opening the door and rebuilding gives those tiles strictly more light,
/// and closing it again restores the original values exactly.
#[test]
fn door_reactivity_and_restore() {
    let mut bf = BoardData::new((5, 5, 1), 6000);
    // A light on the left, a full wall down the middle, a door in the wall.
    let room = |open: bool| {
        vec![
            light_entity(1, 2, 0, 10000),
            wall_entity(2, 0, 0),
            wall_entity(2, 1, 0),
            wall_entity(2, 3, 0),
            wall_entity(2, 4, 0),
            door_entity(2, 2, 0, open),
        ]
    };
    let closed = room(false);
    let opened = room(true);

    // Bake against the closed geometry: propagation stops at the door and
    // the last reachable tile becomes a wave edge.
    rebuild_collision_field(&mut bf, &closed);
    bake_static_lighting(&mut bf, &closed);

    rebuild_lighting_field(&mut bf, &closed);
    let behind_closed = lux_at(&bf, 3, 2, 0);
    let far_closed = lux_at(&bf, 4, 2, 0);
    assert_eq!(behind_closed, 0);
    assert_eq!(far_closed, 0);

    // Open the door: the wave edge resumes and the tiles beyond brighten.
    rebuild_collision_field(&mut bf, &opened);
    rebuild_lighting_field(&mut bf, &opened);
    let behind_open = lux_at(&bf, 3, 2, 0);
    let far_open = lux_at(&bf, 4, 2, 0);
    assert!(behind_open > behind_closed);
    assert!(far_open > far_closed);

    // Close it again: the rebuild is a function of board state, so the
    // original values come back bit for bit.
    rebuild_collision_field(&mut bf, &closed);
    rebuild_lighting_field(&mut bf, &closed);
    assert_eq!(lux_at(&bf, 3, 2, 0), behind_closed);
    assert_eq!(lux_at(&bf, 4, 2, 0), far_closed);
}

/// Two sources too weak to reach each other contribute independently: the
/// combined field is the pointwise sum of the single-source fields.
#[test]
fn distant_sources_add_independently() {
    let s1 = light_entity(0, 0, 0, 2);
    let s2 = light_entity(4, 4, 0, 2);

    let mut bf1 = BoardData::new((5, 5, 1), 6000);
    rebuild_lighting_field(&mut bf1, &vec![s1]);
    let mut bf2 = BoardData::new((5, 5, 1), 6000);
    rebuild_lighting_field(&mut bf2, &vec![s2]);
    let mut bf12 = BoardData::new((5, 5, 1), 6000);
    rebuild_lighting_field(&mut bf12, &vec![s1, s2]);

    for x in 0..5 {
        for y in 0..5 {
            assert_eq!(
                lux_at(&bf12, x, y, 0),
                lux_at(&bf1, x, y, 0) + lux_at(&bf2, x, y, 0),
                "additivity at ({x},{y})"
            );
        }
    }
}

/// For a single source with no occluders, lux strictly decreases with
/// distance while above the propagation floor.
#[test]
fn attenuation_is_monotonic_along_a_line() {
    let mut bf = BoardData::new((16, 1, 1), 6000);
    let snapshot = vec![light_entity(0, 0, 0, 100)];
    rebuild_lighting_field(&mut bf, &snapshot);
    let mut prev = lux_at(&bf, 0, 0, 0);
    assert_eq!(prev, 100);
    for x in 1..16 {
        let cur = lux_at(&bf, x, 0, 0);
        assert!(cur <= prev, "no increase at {x}");
        if prev >= 1 {
            assert!(cur < prev, "strict decrease at {x}");
        }
        prev = cur;
    }
}

/// The full rebuild run twice with no intervening change yields the
/// identical light field and exposure.
#[test]
fn rebuild_is_idempotent() {
    let mut bf = BoardData::new((5, 5, 1), 6000);
    let snapshot = vec![light_entity(2, 2, 0, 10000), wall_entity(3, 2, 0)];
    rebuild_collision_field(&mut bf, &snapshot);
    bake_static_lighting(&mut bf, &snapshot);
    rebuild_lighting_field(&mut bf, &snapshot);
    let mut first = Vec::new();
    for x in 0..5 {
        for y in 0..5 {
            first.push(lux_at(&bf, x, y, 0));
        }
    }
    let first_exposure = bf.exposure_lux;
    rebuild_lighting_field(&mut bf, &snapshot);
    let mut second = Vec::new();
    for x in 0..5 {
        for y in 0..5 {
            second.push(lux_at(&bf, x, y, 0));
        }
    }
    assert_eq!(first, second);
    assert_eq!(first_exposure, bf.exposure_lux);
}

/// Color blending is the intensity-weighted average, and white when no
/// intensity is present.
#[test]
fn blend_colors_weighted_average() {
    assert_eq!(blend_colors((1000, 0, 0), 100, (0, 1000, 0), 300), (250, 750, 0));
    assert_eq!(blend_colors((200, 400, 600), 0, (0, 0, 0), 0), (1000, 1000, 1000));
    assert_eq!(blend_colors((500, 500, 500), 7, (500, 500, 500), 13), (500, 500, 500));
}

/// Bounds checks accept exactly the tiles inside the map.
#[test]
fn in_bounds_matches_map_size() {
    assert!(is_in_bounds((0, 0, 0), (5, 5, 1)));
    assert!(is_in_bounds((4, 4, 0), (5, 5, 1)));
    assert!(!is_in_bounds((5, 0, 0), (5, 5, 1)));
    assert!(!is_in_bounds((0, -1, 0), (5, 5, 1)));
    assert!(!is_in_bounds((0, 0, 1), (5, 5, 1)));
}

/// Where two door entities share a tile, the last snapshot entry wins, as
/// a keyed insert would make it: an open-then-closed pair keeps the tile
/// closed for wave-edge resumption.
#[test]
fn two_doors_on_one_tile_last_wins() {
    let mut bf = BoardData::new((5, 5, 1), 6000);
    let room = |doors: [bool; 2]| {
        vec![
            light_entity(1, 2, 0, 10000),
            wall_entity(2, 0, 0),
            wall_entity(2, 1, 0),
            wall_entity(2, 3, 0),
            wall_entity(2, 4, 0),
            door_entity(2, 2, 0, doors[0]),
            door_entity(2, 2, 0, doors[1]),
        ]
    };
    // Open entry first, closed entry last: the tile counts as closed.
    let closed_last = room([true, false]);
    rebuild_collision_field(&mut bf, &closed_last);
    bake_static_lighting(&mut bf, &closed_last);
    rebuild_lighting_field(&mut bf, &closed_last);
    assert_eq!(lux_at(&bf, 3, 2, 0), 0, "the closing entry wins");

    // Closed entry first, open entry last: the tile counts as open.
    let open_last = room([false, true]);
    rebuild_collision_field(&mut bf, &open_last);
    rebuild_lighting_field(&mut bf, &open_last);
    assert!(lux_at(&bf, 3, 2, 0) > 0, "the opening entry wins");
}
