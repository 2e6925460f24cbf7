use unhaunter_core::behavior::{BehaviorProps, EntitySnapshot, LightProps, MovementProps};
use unhaunter_core::board::{
    angle_bucket, boardfield_update, rebuild_collision_field, seed_temperatures,
    smooth_temperatures, soft_threshold, CachedBoardPos, LightFieldSector, TEMP_JITTER_MILLI,
};
use unhaunter_core::boarddata::{BoardData, BoardDataToRebuild};
use unhaunter_core::boardposition::{BoardPosition, NeighborsIterator};
use unhaunter_core::fielddata::{CollisionFieldData, LightData, LightFieldData};
use unhaunter_core::game::{
    AnimationTimer, CharacterAnimation, CharacterAnimationDirection, CharacterAnimationState,
    ControlKeys, GameConfig, KeyCode, PlayerSprite, Timer,
};
use unhaunter_core::gear::{EMFLevel, GearSpriteID};
use unhaunter_core::mainmenu::{Menu, MenuID, MenuItem};
use unhaunter_core::manual::{create_manual, CurrentManualPage};
use unhaunter_core::position::Position;
use unhaunter_core::baker::set_prebaked_tile;
use unhaunter_core::fielddata::{LightInfo, PrebakedLightingData, PrebakedMetadata};
use unhaunter_core::lighting::has_active_light_nearby;
use unhaunter_core::repellent::{GhostType, Repellent, RepellentFlask, REPELLENT_MAX_LIFE};

fn plain_props() -> BehaviorProps {
    BehaviorProps {
        movement: MovementProps { walkable: false, player_collision: false, ghost_collision: false },
        light: LightProps {
            emits_light: false,
            lux: 0,
            color: (1000, 1000, 1000),
            see_through: true,
            transmissivity: 1000,
            additional: LightData { infrared: 0, ultraviolet: 0, red: 0 },
        },
        is_door: false,
        open: false,
    }
}

/// Neighbor enumeration at the grid corner with radius five never yields a
/// negative coordinate and never leaves the map.
#[test]
fn corner_neighbors_stay_in_bounds() {
    let corner = BoardPosition { x: 0, y: 0, z: 0 };
    let mut it = corner.iter_xy_neighbors(5, (5, 5));
    let mut count = 0;
    while let Some(p) = it.next() {
        assert!(p.x >= 0 && p.y >= 0, "negative coordinate yielded");
        assert!(p.x < 5 && p.y < 5, "coordinate outside the map");
        count += 1;
    }
    assert_eq!(count, 25);

    let mut it2 = NeighborsIterator::new(&corner, 2, (0, 0), (10, 10));
    let mut seen = Vec::new();
    while let Some(p) = it2.next() {
        seen.push((p.x, p.y));
    }
    // Exactly the clamped 3-by-3 square, row-major with x varying fastest,
    // then None forever.
    assert_eq!(
        seen,
        vec![(0, 0), (1, 0), (2, 0), (0, 1), (1, 1), (2, 1), (0, 2), (1, 2), (2, 2)]
    );
    assert_eq!(it2.next(), None);
    assert_eq!(it2.next(), None);
}

#[test]
fn board_position_conversions() {
    let p = BoardPosition::from_ndidx((3, 4, 0));
    assert_eq!((p.x, p.y, p.z), (3, 4, 0));
    assert_eq!(p.ndidx(), (3, 4, 0));
    assert_eq!(p.ndidx_checked((5, 5, 1)), Some((3, 4, 0)));
    assert_eq!(p.ndidx_checked((3, 5, 1)), None);
    assert_eq!(BoardPosition { x: -1, y: 0, z: 0 }.ndidx_checked((5, 5, 1)), None);

    let c = p.to_position_center();
    assert_eq!((c.x, c.y, c.z), (3500, 4500, 0));
    let o = p.to_position();
    assert_eq!((o.x, o.y, o.z), (3000, 4000, 0));
    assert_eq!(
        Position { x: 3499, y: 4999, z: 0, global_z: 0 }.to_board_position(),
        BoardPosition { x: 3, y: 4, z: 0 }
    );

    let origin = BoardPosition { x: 0, y: 0, z: 0 };
    assert_eq!(origin.left().x, 0, "left clamps at the edge");
    assert_eq!(origin.top().y, 0, "top clamps at the edge");
    assert_eq!(origin.right().x, 1);
    assert_eq!(origin.bottom().y, 1);
    assert_eq!(p.distance_taxicab(&origin), 7);

    let square = origin._xy_neighbors_vec(1);
    assert_eq!(square.len(), 9);
    assert_eq!((square[0].x, square[0].y), (-1, -1));
    assert_eq!((square[8].x, square[8].y), (1, 1));
}

/// The collision rebuild overwrites the field: walkable entities stamp
/// their tiles opaque but free, colliders overwrite them, empty tiles
/// default to fully free.
#[test]
fn collision_rebuild_and_pending_protocol() {
    let mut bf = BoardData::new((4, 4, 1), 6000);
    let mut walk = plain_props();
    walk.movement.walkable = true;
    let mut collide = plain_props();
    collide.movement.player_collision = true;
    collide.movement.ghost_collision = true;
    collide.light.see_through = false;
    let snapshot = vec![
        EntitySnapshot { pos: BoardPosition { x: 1, y: 1, z: 0 }, props: walk },
        EntitySnapshot { pos: BoardPosition { x: 1, y: 1, z: 0 }, props: collide },
        EntitySnapshot { pos: BoardPosition { x: 2, y: 2, z: 0 }, props: walk },
    ];

    bf.request_rebuild(false, true);
    bf.request_rebuild(true, false);
    assert_eq!(bf.pending, BoardDataToRebuild { lighting: true, collision: true });
    boardfield_update(&mut bf, &snapshot);
    assert_eq!(bf.pending, BoardDataToRebuild { lighting: false, collision: false });

    // The collider overwrote the walkable stamp at (1,1).
    let c11 = bf.collision_at(&BoardPosition { x: 1, y: 1, z: 0 });
    assert_eq!(
        c11,
        CollisionFieldData { player_free: false, ghost_free: false, see_through: false }
    );
    // The walkable-only tile is free to walk but blocks light.
    let c22 = bf.collision_at(&BoardPosition { x: 2, y: 2, z: 0 });
    assert_eq!(c22, CollisionFieldData { player_free: true, ghost_free: true, see_through: false });
    // Absence means free.
    let c00 = bf.collision_at(&BoardPosition { x: 0, y: 0, z: 0 });
    assert_eq!(c00, CollisionFieldData { player_free: true, ghost_free: true, see_through: true });
    // Out of bounds reads as free as well.
    let coob = bf.collision_at(&BoardPosition { x: -1, y: 0, z: 0 });
    assert_eq!(coob, CollisionFieldData { player_free: true, ghost_free: true, see_through: true });
}

/// The shadow-casting rebuild lights the source tile's surroundings and
/// derives the exposure from the field average.
#[test]
fn shadow_rebuild_lights_and_exposes() {
    let mut bf = BoardData::new((7, 7, 1), 6000);
    let mut lamp = plain_props();
    lamp.light.emits_light = true;
    lamp.light.lux = 1000000;
    let snapshot = vec![EntitySnapshot { pos: BoardPosition { x: 3, y: 3, z: 0 }, props: lamp }];
    bf.request_rebuild(true, true);
    boardfield_update(&mut bf, &snapshot);

    let center = bf.light_at(&BoardPosition { x: 3, y: 3, z: 0 }).unwrap().lux;
    let edge = bf.light_at(&BoardPosition { x: 0, y: 0, z: 0 }).unwrap().lux;
    assert!(center > 0);
    assert!(center > edge);

    let mut total: i64 = 0;
    for x in 0..7 {
        for y in 0..7 {
            total += bf.light_at(&BoardPosition { x, y, z: 0 }).unwrap().lux;
        }
    }
    assert_eq!(bf.exposure_lux, (total / 49 + 2000) / 2);
}

/// Seeding jitters every tile around the ambient value and smoothing keeps
/// the field inside the jitter envelope.
#[test]
fn temperatures_stay_in_envelope() {
    let mut bf = BoardData::new((6, 6, 1), 6000);
    seed_temperatures(&mut bf);
    let mut saw_jitter = false;
    for x in 0..6 {
        for y in 0..6 {
            let t = bf.temperature_at(&BoardPosition { x, y, z: 0 });
            assert!(t >= 6000 - TEMP_JITTER_MILLI && t < 6000 + TEMP_JITTER_MILLI);
            if t != 6000 {
                saw_jitter = true;
            }
        }
    }
    assert!(saw_jitter, "36 jittered tiles never all land exactly on ambient");
    smooth_temperatures(&mut bf, 16);
    for x in 0..6 {
        for y in 0..6 {
            let t = bf.temperature_at(&BoardPosition { x, y, z: 0 });
            assert!(t >= 6000 - TEMP_JITTER_MILLI && t <= 6000 + TEMP_JITTER_MILLI);
        }
    }
}

#[test]
fn sector_roundtrip_and_duplicate() {
    let mut s = LightFieldSector::new(0, 0, 0, 7, 7, 0);
    let tile = LightFieldData {
        lux: 1234,
        transmissivity: 900,
        color: (100, 200, 300),
        additional: LightData { infrared: 1, ultraviolet: 2, red: 3 },
    };
    s.insert(3, 4, 0, tile);
    assert_eq!(s.get(3, 4, 0), Some(tile));
    assert_eq!(s.get_pos(&BoardPosition { x: 3, y: 4, z: 0 }), Some(tile));
    assert_eq!(s.get(0, 0, 0).unwrap().lux, 0);
    let d = s.duplicate();
    assert_eq!(d.get(3, 4, 0), Some(tile));
    let m = s.get_mut_pos(&BoardPosition { x: 3, y: 4, z: 0 });
    assert_eq!(m, Some(tile));
}

#[test]
fn cached_tables_give_distance_and_buckets() {
    let cbp = CachedBoardPos::new();
    let o = BoardPosition { x: 10, y: 10, z: 0 };
    // A 3-4-5 triangle: five tiles in milli-units.
    let d = cbp.bpos_dist(&o, &BoardPosition { x: 13, y: 14, z: 0 });
    assert_eq!(d, 5000);
    assert_eq!(cbp.bpos_dist(&o, &o), 0);
    // The four axis directions land on the four quarter-turn buckets.
    assert_eq!(cbp.bpos_angle(&o, &BoardPosition { x: 11, y: 10, z: 0 }), 0);
    assert_eq!(cbp.bpos_angle(&o, &BoardPosition { x: 10, y: 11, z: 0 }), 24);
    assert_eq!(cbp.bpos_angle(&o, &BoardPosition { x: 9, y: 10, z: 0 }), 48);
    assert_eq!(cbp.bpos_angle(&o, &BoardPosition { x: 10, y: 9, z: 0 }), 72);
    assert_eq!(angle_bucket(1, 1), 12);
    // A unit tile subtends a wider angle the nearer it stands.
    let near = cbp.bpos_angle_range(&o, &BoardPosition { x: 11, y: 10, z: 0 });
    let far = cbp.bpos_angle_range(&o, &BoardPosition { x: 20, y: 10, z: 0 });
    assert!(near.0 <= 0 && near.1 >= 0);
    assert!(near.1 - near.0 > far.1 - far.0);
    // The soft threshold ramps from shadow to light around zero.
    assert_eq!(soft_threshold(-100000), 0);
    assert_eq!(soft_threshold(100000), 1000);
    assert!(soft_threshold(0) == 500);
    assert!(soft_threshold(400) > 500);
    assert!(soft_threshold(-400) < 500);
}

#[test]
fn menu_navigation_wraps() {
    let mut menu = Menu::default();
    assert_eq!(menu.selected, MenuID::NewGame);
    assert_eq!(menu.item_idx(), 0);
    menu.next_item();
    assert_eq!(menu.selected, MenuID::Options);
    menu.next_item();
    assert_eq!(menu.selected, MenuID::Quit);
    menu.next_item();
    assert_eq!(menu.selected, MenuID::NewGame);
    menu.previous_item();
    assert_eq!(menu.selected, MenuID::Quit);
    assert_eq!(Menu::idx_to_item(-1), MenuID::Quit);
    assert_eq!(Menu::idx_to_item(5), MenuID::Quit);
    assert_eq!(Menu::idx_to_item(3), MenuID::NewGame);

    let mut item = MenuItem::new(MenuID::Options);
    assert!(!item.highlighted);
    item.update_highlight(&menu);
    assert!(!item.highlighted, "the menu has Quit selected");
    menu.next_item();
    menu.next_item();
    assert_eq!(menu.selected, MenuID::Options);
    item.update_highlight(&menu);
    assert!(item.highlighted);
}

#[test]
fn manual_chapters_are_indexed_by_name() {
    let manual = create_manual();
    assert_eq!(manual.chapters.len(), 2);
    assert_eq!(manual.chapters[0].pages.len(), 5);
    let idx0 = manual.chapters[0].index(&manual);
    let idx1 = manual.chapters[1].index(&manual);
    assert_eq!(idx0, 0);
    assert_eq!(idx1, 1);
    let page = CurrentManualPage::default();
    assert_eq!((page.0, page.1), (0, 0));
}

#[test]
fn emf_levels_and_labels() {
    assert_eq!(EMFLevel::from_milligauss(25000), EMFLevel::EMF5);
    assert_eq!(EMFLevel::from_milligauss(15000), EMFLevel::EMF4);
    assert_eq!(EMFLevel::from_milligauss(3000), EMFLevel::EMF3);
    assert_eq!(EMFLevel::from_milligauss(2000), EMFLevel::EMF2);
    assert_eq!(EMFLevel::from_milligauss(1000), EMFLevel::Quiet);
    assert_eq!(EMFLevel::from_milligauss(1500), EMFLevel::Quiet);
    assert_eq!(EMFLevel::EMF5.to_status(), "EMF5");
    assert_eq!(EMFLevel::Quiet.to_status(), "");
    assert_eq!(EMFLevel::EMF3.to_spriteid(), GearSpriteID::EMFMeter2);
    assert_eq!(EMFLevel::Quiet.to_spriteid(), GearSpriteID::EMFMeter0);
}

#[test]
fn player_controls_defaults() {
    let p1 = PlayerSprite::new(1);
    assert_eq!(p1.controls, ControlKeys::wasd());
    assert_eq!(p1.controls.up, KeyCode::W);
    let p2 = PlayerSprite::new(2);
    assert_eq!(p2.controls, ControlKeys::ijkl());
    assert_eq!(p2.controls.activate, KeyCode::O);
    let p3 = PlayerSprite::new(7);
    assert_eq!(p3.controls, ControlKeys::none());
    assert_eq!(p3.controls.up, KeyCode::Unlabeled);
    assert_eq!(GameConfig::default().player_id, 1);
}

#[test]
fn animation_timer_steps_frames() {
    let timer = Timer::new(200000);
    let mut anim = AnimationTimer::from_range(timer, vec![10, 20, 30]);
    assert_eq!(anim.tick(100000), None);
    assert_eq!(anim.tick(100000), Some(20));
    assert_eq!(anim.tick(250000), Some(30));
    assert_eq!(anim.tick(100000), None, "only 150 of 200 milliseconds have elapsed");
    anim.set_range(vec![7]);
    assert_eq!(anim.tick(400000), Some(7));

    let walk = CharacterAnimation {
        state: CharacterAnimationState::Walking,
        dir: CharacterAnimationDirection::SS,
    };
    assert_eq!(walk.to_vec(), vec![16, 20, 24, 28]);
    let stand = CharacterAnimation {
        state: CharacterAnimationState::Standing,
        dir: CharacterAnimationDirection::NN,
    };
    assert_eq!(stand.to_vec(), vec![32, 36, 40, 44]);
}

#[test]
fn repellent_flask_lifecycle() {
    let mut flask = RepellentFlask::default();
    assert!(flask.liquid_content.is_none());
    flask.set_trigger();
    assert!(!flask.active, "an empty flask stays idle");
    assert!(flask.can_fill_liquid(GhostType::Wraith));
    flask.do_fill_liquid(GhostType::Wraith);
    assert!(!flask.can_fill_liquid(GhostType::Wraith), "already full against this type");
    assert!(flask.can_fill_liquid(GhostType::Shade));
    flask.set_trigger();
    assert!(flask.active);

    let rep = Repellent::new(GhostType::Wraith);
    assert_eq!(rep.life, REPELLENT_MAX_LIFE);
    assert_eq!(rep.life_factor(), 1000);
    let half = Repellent { life: 750, ..rep };
    assert_eq!(half.life_factor(), 500);
}

/// A baked source counts as nearby only while its entity emits, and only
/// within the 27-cell neighborhood.
#[test]
fn nearby_active_sources_follow_the_bake() {
    let mut bf = BoardData::new((6, 6, 1), 6000);
    let baked = PrebakedLightingData {
        light_info: LightInfo { source_id: Some(7), lux: 5000, color: (1000, 1000, 1000) },
        is_wave_edge: false,
    };
    set_prebaked_tile(&mut bf, &BoardPosition { x: 2, y: 2, z: 0 }, baked);

    let active = vec![7u32];
    let inactive: Vec<u32> = Vec::new();
    assert!(has_active_light_nearby(&bf, &active, 2, 2, 0));
    assert!(has_active_light_nearby(&bf, &active, 3, 3, 0), "diagonal neighbor sees it");
    assert!(!has_active_light_nearby(&bf, &active, 5, 5, 0), "too far away");
    assert!(!has_active_light_nearby(&bf, &inactive, 2, 2, 0), "source not active");
}

/// The plain per-tile defaults carry the documented values.
#[test]
fn field_data_defaults() {
    let dark = LightFieldData::dark();
    assert_eq!(dark.lux, 0);
    assert_eq!(dark.transmissivity, 1000);
    assert_eq!(dark.color, (1000, 1000, 1000));
    let free = CollisionFieldData::free();
    assert!(free.player_free && free.ghost_free && free.see_through);
    let none_info = LightInfo::none();
    assert!(none_info.source_id.is_none());
    assert!(!PrebakedLightingData::empty().is_wave_edge);
    assert!(PrebakedMetadata::new().light_sources.is_empty());

    let a = LightData { infrared: 1, ultraviolet: 2, red: 3 };
    let b = LightData { infrared: 10, ultraviolet: 20, red: 30 };
    let sum = a.add(&b);
    assert_eq!((sum.infrared, sum.ultraviolet, sum.red), (11, 22, 33));
    assert_eq!(LightData::zero(), LightData { infrared: 0, ultraviolet: 0, red: 0 });
}
